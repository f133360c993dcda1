//! The byte encoding of values, functions and function arguments: a value is
//! its type's code followed by its contents; arrays and objects carry their
//! length before their items.
use crate::traits::{
    be_encode, lemma_fixed_prefix, lemma_fixed_read, lemma_pow256_values, lemma_take_encoded, pow256,
    read_be, ByteDecodeError, ByteReader, SerializeToBytes,
};
use crate::value::function::{Function, FunctionArgument};
use crate::value::types::{type_code, ValueType};
use crate::value::object::ObjectMap;
use crate::value::{Primitive, Value};
use vstd::prelude::*;

verus! {

/// The bytes that encode a value
pub open spec fn value_bytes(v: Value) -> Seq<u8>
    decreases v,
{
    match v {
        Value::Primitive(p) => seq![type_code(ValueType::Primitive)] + p.encoding(),
        Value::Function(f) => seq![type_code(ValueType::Function)] + function_bytes(f),
        Value::Array(a) => seq![type_code(ValueType::Array)] + be_encode(a@.len(), 8) + values_bytes(a@),
        Value::Object(o) => seq![type_code(ValueType::Object)] + be_encode(o.entries@.len(), 8)
            + entries_bytes(o.entries@),
        Value::Range(r) => seq![type_code(ValueType::Range)] + r.start.encoding() + r.end.encoding(),
    }
}

/// The bytes that encode a function: its name's hash, its return type, its
/// arguments, its debug profile, its documentation and its bytecode
pub open spec fn function_bytes(f: Function) -> Seq<u8>
    decreases f,
{
    f.name_hash.encoding() + seq![type_code(f.returns)] + be_encode(f.expects@.len(), 8)
        + args_bytes(f.expects@) + function_tail(f)
}

/// The bytes that close a function's encoding: its debug profile, its
/// documentation and its bytecode
#[verifier::opaque]
pub open spec fn function_tail(f: Function) -> Seq<u8> {
    f.debug.encoding() + f.docs.encoding() + f.body.encoding()
}

/// The bytes that encode a function's arguments, one after the other
pub open spec fn args_bytes(s: Seq<FunctionArgument>) -> Seq<u8>
    decreases s,
{
    if s.len() == 0 {
        Seq::empty()
    } else {
        arg_bytes(s[0]) + args_bytes(s.subrange(1, s.len() as int))
    }
}

/// The bytes that encode a function argument: its name's hash, its type and
/// its default value, if any
pub open spec fn arg_bytes(a: FunctionArgument) -> Seq<u8>
    decreases a,
{
    a.name_hash.encoding() + seq![type_code(a.ty)] + match a.default {
        Some(d) => seq![1u8] + value_bytes(d),
        None => seq![0u8],
    }
}

/// The bytes that encode values, one after the other
pub open spec fn values_bytes(s: Seq<Value>) -> Seq<u8>
    decreases s,
{
    if s.len() == 0 {
        Seq::empty()
    } else {
        value_bytes(s[0]) + values_bytes(s.subrange(1, s.len() as int))
    }
}

/// The bytes that encode an object's entries, each its key then its value
pub open spec fn entries_bytes(s: Seq<(Primitive, Value)>) -> Seq<u8>
    decreases s,
{
    if s.len() == 0 {
        Seq::empty()
    } else {
        s[0].0.encoding() + value_bytes(s[0].1) + entries_bytes(s.subrange(1, s.len() as int))
    }
}

/// The lengths within a value fit the encoding's length fields
pub open spec fn value_fits(v: Value) -> bool
    decreases v,
{
    match v {
        Value::Primitive(p) => p.encodable(),
        Value::Function(f) => function_fits(f),
        Value::Array(a) => a@.len() < pow256(8) && values_fit(a@),
        Value::Object(o) => o.entries@.len() < pow256(8) && entries_fit(o.entries@),
        Value::Range(_) => true,
    }
}

/// The lengths within a function fit the encoding's length fields
pub open spec fn function_fits(f: Function) -> bool
    decreases f,
{
    &&& f.expects@.len() < pow256(8)
    &&& args_fit(f.expects@)
    &&& f.debug.encodable()
    &&& f.docs.encodable()
    &&& f.body.encodable()
}

/// The lengths within each argument fit the encoding's length fields
pub open spec fn args_fit(s: Seq<FunctionArgument>) -> bool
    decreases s,
{
    forall|i: int| 0 <= i < s.len() ==> arg_fits(#[trigger] s[i])
}

/// The lengths within an argument's default value fit the encoding
pub open spec fn arg_fits(a: FunctionArgument) -> bool
    decreases a,
{
    match a.default {
        Some(d) => value_fits(d),
        None => true,
    }
}

/// The lengths within each value fit the encoding's length fields
pub open spec fn values_fit(s: Seq<Value>) -> bool
    decreases s,
{
    forall|i: int| 0 <= i < s.len() ==> value_fits(#[trigger] s[i])
}

/// The lengths within each entry fit the encoding's length fields
pub open spec fn entries_fit(s: Seq<(Primitive, Value)>) -> bool
    decreases s,
{
    forall|i: int| 0 <= i < s.len() ==> (#[trigger] s[i]).0.encodable() && value_fits(s[i].1)
}

/// Encoding a value after others extends their encoding by its own
pub proof fn lemma_values_push(s: Seq<Value>, x: Value)
    ensures
        values_bytes(s.push(x)) == values_bytes(s) + value_bytes(x),
    decreases s.len(),
{
    let t = s.push(x);
    if s.len() == 0 {
        assert(t.subrange(1, 1) =~= Seq::<Value>::empty());
        assert(values_bytes(Seq::<Value>::empty()) == Seq::<u8>::empty());
        assert(t[0] == x);
        assert(values_bytes(t) =~= value_bytes(x));
    } else {
        let rest = s.subrange(1, s.len() as int);
        lemma_values_push(rest, x);
        assert(t.subrange(1, t.len() as int) =~= rest.push(x));
        assert(values_bytes(t) =~= values_bytes(s) + value_bytes(x));
    }
}

/// Encoding an argument after others extends their encoding by its own
pub proof fn lemma_args_push(s: Seq<FunctionArgument>, x: FunctionArgument)
    ensures
        args_bytes(s.push(x)) == args_bytes(s) + arg_bytes(x),
    decreases s.len(),
{
    let t = s.push(x);
    if s.len() == 0 {
        assert(t.subrange(1, 1) =~= Seq::<FunctionArgument>::empty());
        assert(args_bytes(Seq::<FunctionArgument>::empty()) == Seq::<u8>::empty());
        assert(t[0] == x);
        assert(args_bytes(t) =~= arg_bytes(x));
    } else {
        let rest = s.subrange(1, s.len() as int);
        lemma_args_push(rest, x);
        assert(t.subrange(1, t.len() as int) =~= rest.push(x));
        assert(args_bytes(t) =~= args_bytes(s) + arg_bytes(x));
    }
}

/// Encoding an entry after others extends their encoding by its own
pub proof fn lemma_entries_push(s: Seq<(Primitive, Value)>, x: (Primitive, Value))
    ensures
        entries_bytes(s.push(x)) == entries_bytes(s) + x.0.encoding() + value_bytes(x.1),
    decreases s.len(),
{
    let t = s.push(x);
    if s.len() == 0 {
        assert(t.subrange(1, 1) =~= Seq::<(Primitive, Value)>::empty());
        assert(entries_bytes(Seq::<(Primitive, Value)>::empty()) == Seq::<u8>::empty());
        assert(t[0] == x);
        assert(entries_bytes(t) =~= x.0.encoding() + value_bytes(x.1));
    } else {
        let rest = s.subrange(1, s.len() as int);
        lemma_entries_push(rest, x);
        assert(t.subrange(1, t.len() as int) =~= rest.push(x));
        assert(entries_bytes(t) =~= entries_bytes(s) + x.0.encoding() + value_bytes(x.1));
    }
}

/// No value's encoding is a proper prefix of another's: two buffers that
/// start with encodings of values agree on them and on what follows
pub proof fn lemma_value_prefix_free(a: Value, b: Value, r1: Seq<u8>, r2: Seq<u8>)
    requires
        value_fits(a),
        value_fits(b),
        value_bytes(a) + r1 == value_bytes(b) + r2,
    ensures
        value_bytes(a) == value_bytes(b),
        r1 == r2,
    decreases a,
{
    let whole = value_bytes(a) + r1;
    assert(whole[0] == value_bytes(a)[0]);
    assert(whole[0] == value_bytes(b)[0]);
    let ta = value_bytes(a).skip(1);
    let tb = value_bytes(b).skip(1);
    assert(value_bytes(a) =~= seq![value_bytes(a)[0]] + ta);
    assert(value_bytes(b) =~= seq![value_bytes(b)[0]] + tb);
    assert(whole.skip(1) =~= ta + r1);
    assert(whole.skip(1) =~= tb + r2);
    match a {
        Value::Primitive(p) => {
            assert(b is Primitive);
            let q = b->Primitive_0;
            assert(ta =~= p.encoding());
            assert(tb =~= q.encoding());
            Primitive::lemma_prefix_free(p, q, r1, r2);
        },
        Value::Function(f) => {
            assert(b is Function);
            assert(ta =~= function_bytes(f));
            assert(tb =~= function_bytes(b->Function_0));
            lemma_function_prefix_free(f, b->Function_0, r1, r2);
        },
        Value::Array(x) => {
            assert(b is Array);
            let y = b->Array_0;
            assert(ta =~= be_encode(x@.len(), 8) + values_bytes(x@));
            assert(tb =~= be_encode(y@.len(), 8) + values_bytes(y@));
            lemma_counted_prefix(x@.len(), y@.len(), values_bytes(x@), values_bytes(y@), r1, r2);
            lemma_values_prefix_free(x@, y@, r1, r2);
        },
        Value::Object(x) => {
            assert(b is Object);
            let y = b->Object_0;
            assert(ta =~= be_encode(x.entries@.len(), 8) + entries_bytes(x.entries@));
            assert(tb =~= be_encode(y.entries@.len(), 8) + entries_bytes(y.entries@));
            lemma_counted_prefix(x.entries@.len(), y.entries@.len(), entries_bytes(x.entries@), entries_bytes(y.entries@), r1, r2);
            lemma_entries_prefix_free(x.entries@, y.entries@, r1, r2);
        },
        Value::Range(x) => {
            assert(b is Range);
            let y = b->Range_0;
            assert(ta =~= x.start.encoding() + x.end.encoding());
            assert(tb =~= y.start.encoding() + y.end.encoding());
            lemma_pair_prefix_free(x.start, y.start, x.end, y.end, r1, r2);
        },
    }
}

/// Two buffers that start with a count and then some bytes agree on the counts
/// and on what follows them
proof fn lemma_counted_prefix(n: nat, m: nat, x: Seq<u8>, y: Seq<u8>, r1: Seq<u8>, r2: Seq<u8>)
    requires
        n < pow256(8),
        m < pow256(8),
        be_encode(n, 8) + x + r1 == be_encode(m, 8) + y + r2,
    ensures
        n == m,
        x + r1 == y + r2,
{
    lemma_pow256_values();
    assert(be_encode(n, 8) + x + r1 =~= be_encode(n, 8) + (x + r1));
    assert(be_encode(m, 8) + y + r2 =~= be_encode(m, 8) + (y + r2));
    lemma_fixed_prefix(n, m, 8, x + r1, y + r2);
}

/// Two buffers that start with the encodings of two values each agree on them
/// and on what follows
proof fn lemma_pair_prefix_free<A: SerializeToBytes, B: SerializeToBytes>(a1: A, a2: A, b1: B, b2: B, r1: Seq<u8>, r2: Seq<u8>)
    requires
        a1.encodable(),
        a2.encodable(),
        b1.encodable(),
        b2.encodable(),
        a1.encoding() + b1.encoding() + r1 == a2.encoding() + b2.encoding() + r2,
    ensures
        a1.encoding() == a2.encoding(),
        b1.encoding() == b2.encoding(),
        r1 == r2,
{
    assert(a1.encoding() + b1.encoding() + r1 =~= a1.encoding() + (b1.encoding() + r1));
    assert(a2.encoding() + b2.encoding() + r2 =~= a2.encoding() + (b2.encoding() + r2));
    A::lemma_prefix_free(a1, a2, b1.encoding() + r1, b2.encoding() + r2);
    B::lemma_prefix_free(b1, b2, r1, r2);
}

/// Two buffers that start with a name's hash and a type's code agree on them
/// and on what follows
proof fn lemma_head_prefix_free(h1: u64, h2: u64, c1: u8, c2: u8, r1: Seq<u8>, r2: Seq<u8>)
    requires
        h1.encoding() + seq![c1] + r1 == h2.encoding() + seq![c2] + r2,
    ensures
        h1 == h2,
        c1 == c2,
        r1 == r2,
{
    assert(h1.encoding() + seq![c1] + r1 =~= h1.encoding() + (seq![c1] + r1));
    assert(h2.encoding() + seq![c2] + r2 =~= h2.encoding() + (seq![c2] + r2));
    u64::lemma_prefix_free(h1, h2, seq![c1] + r1, seq![c2] + r2);
    lemma_pow256_values();
    crate::traits::lemma_be_decode_encode(h1 as nat, 8);
    crate::traits::lemma_be_decode_encode(h2 as nat, 8);
    vstd::arithmetic::div_mod::lemma_small_mod(h1 as nat, pow256(8));
    vstd::arithmetic::div_mod::lemma_small_mod(h2 as nat, pow256(8));
    assert((seq![c1] + r1)[0] == c1);
    assert((seq![c2] + r2)[0] == c2);
    assert((seq![c1] + r1).skip(1) =~= r1);
    assert((seq![c2] + r2).skip(1) =~= r2);
}

/// Two buffers that start with the closing parts of functions agree on them
/// and on what follows
proof fn lemma_tail_prefix_free(a: Function, b: Function, r1: Seq<u8>, r2: Seq<u8>)
    requires
        a.debug.encodable(),
        b.debug.encodable(),
        a.docs.encodable(),
        b.docs.encodable(),
        a.body.encodable(),
        b.body.encodable(),
        function_tail(a) + r1 == function_tail(b) + r2,
    ensures
        function_tail(a) == function_tail(b),
        r1 == r2,
{
    reveal(function_tail);
    let (d1, c1, b1) = (a.debug, a.docs, a.body);
    let (d2, c2, b2) = (b.debug, b.docs, b.body);
    assert(d1.encoding() + c1.encoding() + b1.encoding() + r1 =~= d1.encoding() + c1.encoding() + (b1.encoding() + r1));
    assert(d2.encoding() + c2.encoding() + b2.encoding() + r2 =~= d2.encoding() + c2.encoding() + (b2.encoding() + r2));
    lemma_pair_prefix_free(d1, d2, c1, c2, b1.encoding() + r1, b2.encoding() + r2);
    Vec::<u8>::lemma_prefix_free(b1, b2, r1, r2);
}

/// No function's encoding is a proper prefix of another's
pub proof fn lemma_function_prefix_free(a: Function, b: Function, r1: Seq<u8>, r2: Seq<u8>)
    requires
        function_fits(a),
        function_fits(b),
        function_bytes(a) + r1 == function_bytes(b) + r2,
    ensures
        function_bytes(a) == function_bytes(b),
        r1 == r2,
    decreases a,
{
    let ta = function_tail(a);
    let tb = function_tail(b);
    let ga = args_bytes(a.expects@);
    let gb = args_bytes(b.expects@);
    let na = be_encode(a.expects@.len(), 8);
    let nb = be_encode(b.expects@.len(), 8);
    let ha = a.name_hash.encoding();
    let hb = b.name_hash.encoding();
    let la = na + ga + ta + r1;
    let lb = nb + gb + tb + r2;
    assert(function_bytes(a) + r1 =~= ha + seq![type_code(a.returns)] + la);
    assert(function_bytes(b) + r2 =~= hb + seq![type_code(b.returns)] + lb);
    lemma_head_prefix_free(a.name_hash, b.name_hash, type_code(a.returns), type_code(b.returns), la, lb);
    assert(la =~= na + ga + (ta + r1));
    assert(lb =~= nb + gb + (tb + r2));
    lemma_counted_prefix(a.expects@.len(), b.expects@.len(), ga, gb, ta + r1, tb + r2);
    lemma_args_prefix_free(a.expects@, b.expects@, ta + r1, tb + r2);
    lemma_tail_prefix_free(a, b, r1, r2);
}

/// No argument's encoding is a proper prefix of another's
pub proof fn lemma_arg_prefix_free(a: FunctionArgument, b: FunctionArgument, r1: Seq<u8>, r2: Seq<u8>)
    requires
        arg_fits(a),
        arg_fits(b),
        arg_bytes(a) + r1 == arg_bytes(b) + r2,
    ensures
        arg_bytes(a) == arg_bytes(b),
        r1 == r2,
    decreases a,
{
    let da = match a.default { Some(d) => seq![1u8] + value_bytes(d), None => seq![0u8] };
    let db = match b.default { Some(d) => seq![1u8] + value_bytes(d), None => seq![0u8] };
    assert(arg_bytes(a) + r1 =~= a.name_hash.encoding() + (seq![type_code(a.ty)] + (da + r1)));
    assert(arg_bytes(b) + r2 =~= b.name_hash.encoding() + (seq![type_code(b.ty)] + (db + r2)));
    u64::lemma_prefix_free(a.name_hash, b.name_hash, seq![type_code(a.ty)] + (da + r1), seq![type_code(b.ty)] + (db + r2));
    let xa = seq![type_code(a.ty)] + (da + r1);
    let xb = seq![type_code(b.ty)] + (db + r2);
    assert(xa[0] == xb[0]);
    assert(xa.skip(1) =~= da + r1);
    assert(xb.skip(1) =~= db + r2);
    assert((da + r1)[0] == da[0]);
    assert((db + r2)[0] == db[0]);
    match a.default {
        Some(d) => {
            let e = b.default->0;
            assert((da + r1).skip(1) =~= value_bytes(d) + r1);
            assert((db + r2).skip(1) =~= value_bytes(e) + r2);
            lemma_value_prefix_free(d, e, r1, r2);
        },
        None => {
            assert((da + r1).skip(1) =~= r1);
            assert((db + r2).skip(1) =~= r2);
        },
    }
    assert(arg_bytes(a) =~= arg_bytes(b));
}

/// Two runs of arguments of one length that start two equal buffers have
/// equal encodings and leave equal remainders
pub proof fn lemma_args_prefix_free(a: Seq<FunctionArgument>, b: Seq<FunctionArgument>, r1: Seq<u8>, r2: Seq<u8>)
    requires
        a.len() == b.len(),
        args_fit(a),
        args_fit(b),
        args_bytes(a) + r1 == args_bytes(b) + r2,
    ensures
        args_bytes(a) == args_bytes(b),
        r1 == r2,
    decreases a,
{
    if a.len() == 0 {
        assert(args_bytes(a) + r1 =~= r1);
        assert(args_bytes(b) + r2 =~= r2);
    } else {
        let ra = a.subrange(1, a.len() as int);
        let rb = b.subrange(1, b.len() as int);
        assert(args_bytes(a) + r1 =~= arg_bytes(a[0]) + (args_bytes(ra) + r1));
        assert(args_bytes(b) + r2 =~= arg_bytes(b[0]) + (args_bytes(rb) + r2));
        assert(arg_fits(a[0]) && arg_fits(b[0]));
        lemma_arg_prefix_free(a[0], b[0], args_bytes(ra) + r1, args_bytes(rb) + r2);
        assert forall|i: int| 0 <= i < ra.len() implies arg_fits(#[trigger] ra[i]) by {
            assert(ra[i] == a[i + 1]);
        }
        assert forall|i: int| 0 <= i < rb.len() implies arg_fits(#[trigger] rb[i]) by {
            assert(rb[i] == b[i + 1]);
        }
        lemma_args_prefix_free(ra, rb, r1, r2);
    }
}

/// Two runs of values of one length that start two equal buffers have equal
/// encodings and leave equal remainders
pub proof fn lemma_values_prefix_free(a: Seq<Value>, b: Seq<Value>, r1: Seq<u8>, r2: Seq<u8>)
    requires
        a.len() == b.len(),
        values_fit(a),
        values_fit(b),
        values_bytes(a) + r1 == values_bytes(b) + r2,
    ensures
        values_bytes(a) == values_bytes(b),
        r1 == r2,
    decreases a,
{
    if a.len() == 0 {
        assert(values_bytes(a) + r1 =~= r1);
        assert(values_bytes(b) + r2 =~= r2);
    } else {
        let ra = a.subrange(1, a.len() as int);
        let rb = b.subrange(1, b.len() as int);
        assert(values_bytes(a) + r1 =~= value_bytes(a[0]) + (values_bytes(ra) + r1));
        assert(values_bytes(b) + r2 =~= value_bytes(b[0]) + (values_bytes(rb) + r2));
        assert(value_fits(a[0]) && value_fits(b[0]));
        lemma_value_prefix_free(a[0], b[0], values_bytes(ra) + r1, values_bytes(rb) + r2);
        assert forall|i: int| 0 <= i < ra.len() implies value_fits(#[trigger] ra[i]) by {
            assert(ra[i] == a[i + 1]);
        }
        assert forall|i: int| 0 <= i < rb.len() implies value_fits(#[trigger] rb[i]) by {
            assert(rb[i] == b[i + 1]);
        }
        lemma_values_prefix_free(ra, rb, r1, r2);
    }
}

/// Two runs of entries of one length that start two equal buffers have equal
/// encodings and leave equal remainders
pub proof fn lemma_entries_prefix_free(a: Seq<(Primitive, Value)>, b: Seq<(Primitive, Value)>, r1: Seq<u8>, r2: Seq<u8>)
    requires
        a.len() == b.len(),
        entries_fit(a),
        entries_fit(b),
        entries_bytes(a) + r1 == entries_bytes(b) + r2,
    ensures
        entries_bytes(a) == entries_bytes(b),
        r1 == r2,
    decreases a,
{
    if a.len() == 0 {
        assert(entries_bytes(a) + r1 =~= r1);
        assert(entries_bytes(b) + r2 =~= r2);
    } else {
        let ra = a.subrange(1, a.len() as int);
        let rb = b.subrange(1, b.len() as int);
        let va = value_bytes(a[0].1) + (entries_bytes(ra) + r1);
        let vb = value_bytes(b[0].1) + (entries_bytes(rb) + r2);
        assert(entries_bytes(a) + r1 =~= a[0].0.encoding() + va);
        assert(entries_bytes(b) + r2 =~= b[0].0.encoding() + vb);
        assert(a[0].0.encodable() && value_fits(a[0].1));
        assert(b[0].0.encodable() && value_fits(b[0].1));
        Primitive::lemma_prefix_free(a[0].0, b[0].0, va, vb);
        lemma_value_prefix_free(a[0].1, b[0].1, entries_bytes(ra) + r1, entries_bytes(rb) + r2);
        assert forall|i: int| 0 <= i < ra.len() implies (#[trigger] ra[i]).0.encodable() && value_fits(ra[i].1) by {
            assert(ra[i] == a[i + 1]);
        }
        assert forall|i: int| 0 <= i < rb.len() implies (#[trigger] rb[i]).0.encodable() && value_fits(rb[i].1) by {
            assert(rb[i] == b[i + 1]);
        }
        lemma_entries_prefix_free(ra, rb, r1, r2);
        assert(entries_bytes(a) =~= entries_bytes(b));
    }
}

/// Appends the encoding of a count to a buffer
fn push_count(n: usize, out: &mut Vec<u8>)
    ensures
        n < pow256(8),
        final(out)@ == old(out)@ + be_encode(n as nat, 8),
{
    proof {
        lemma_pow256_values();
    }
    let enc = n.serialize_into_bytes();
    out.extend_from_slice(enc.as_slice());
}

/// Appends the encoding of a value to a buffer
pub fn value_into(v: Value, out: &mut Vec<u8>)
    ensures
        value_fits(v),
        final(out)@ == old(out)@ + value_bytes(v),
    decreases v,
{
    let ghost start = out@;
    match v {
        Value::Primitive(p) => {
            out.push(ValueType::Primitive.code());
            let enc = p.serialize_into_bytes();
            out.extend_from_slice(enc.as_slice());
            assert(out@ =~= start + value_bytes(v));
        },
        Value::Function(f) => {
            out.push(ValueType::Function.code());
            function_into(f, out);
            assert(out@ =~= start + value_bytes(v));
        },
        Value::Array(a) => {
            out.push(ValueType::Array.code());
            push_count(a.len(), out);
            let ghost items = a@;
            let ghost head = out@;
            for x in it: a
                invariant
                    it.seq() == items,
                    v == Value::Array(a),
                    items == a@,
                    out@ == head + values_bytes(items.take(it.index())),
                    forall|i: int| 0 <= i < it.index() ==> value_fits(#[trigger] items[i]),
            {
                let ghost k = it.index();
                proof {
                    let arr = v->Array_0;
                    assert(decreases_to!(v => arr));
                    assert(decreases_to!(arr => arr@));
                    assert(decreases_to!(arr@ => arr@[k]));
                }
                value_into(x, out);
                proof {
                    assert(items.take(k + 1) =~= items.take(k).push(items[k]));
                    lemma_values_push(items.take(k), items[k]);
                }
            }
            assert(items.take(items.len() as int) =~= items);
            assert(out@ =~= start + value_bytes(v));
        },
        Value::Object(o) => {
            out.push(ValueType::Object.code());
            push_count(o.entries.len(), out);
            let ObjectMap { entries } = o;
            let ghost items = entries@;
            let ghost head = out@;
            for e in it: entries
                invariant
                    it.seq() == items,
                    v == Value::Object(ObjectMap { entries }),
                    items == entries@,
                    out@ == head + entries_bytes(items.take(it.index())),
                    forall|i: int| 0 <= i < it.index() ==> (#[trigger] items[i]).0.encodable() && value_fits(items[i].1),
            {
                let ghost k = it.index();
                let (key, val) = e;
                let enc = key.serialize_into_bytes();
                out.extend_from_slice(enc.as_slice());
                proof {
                    let obj = v->Object_0;
                    assert(decreases_to!(v => obj));
                    assert(decreases_to!(obj => obj.entries));
                    assert(decreases_to!(obj.entries => obj.entries@));
                    assert(decreases_to!(obj.entries@ => obj.entries@[k]));
                    assert(decreases_to!(obj.entries@[k] => obj.entries@[k].1));
                }
                value_into(val, out);
                proof {
                    assert(items.take(k + 1) =~= items.take(k).push(items[k]));
                    lemma_entries_push(items.take(k), items[k]);
                }
            }
            assert(items.take(items.len() as int) =~= items);
            assert(out@ =~= start + value_bytes(v));
        },
        Value::Range(r) => {
            out.push(ValueType::Range.code());
            let enc = r.start.serialize_into_bytes();
            out.extend_from_slice(enc.as_slice());
            let enc = r.end.serialize_into_bytes();
            out.extend_from_slice(enc.as_slice());
            assert(out@ =~= start + value_bytes(v));
        },
    }
}

/// Appends the encoding of a function to a buffer
pub fn function_into(f: Function, out: &mut Vec<u8>)
    ensures
        function_fits(f),
        final(out)@ == old(out)@ + function_bytes(f),
    decreases f,
{
    let ghost start = out@;
    let Function { name_hash, returns: ret, expects, debug, docs, body } = f;
    let enc = name_hash.serialize_into_bytes();
    out.extend_from_slice(enc.as_slice());
    out.push(ret.code());
    push_count(expects.len(), out);
    let ghost items = expects@;
    let ghost head = out@;
    for x in it: expects
        invariant
            it.seq() == items,
            f.expects == expects,
            items == expects@,
            out@ == head + args_bytes(items.take(it.index())),
            forall|i: int| 0 <= i < it.index() ==> arg_fits(#[trigger] items[i]),
    {
        let ghost k = it.index();
        proof {
            assert(decreases_to!(f => items[k]));
        }
        arg_into(x, out);
        proof {
            assert(items.take(k + 1) =~= items.take(k).push(items[k]));
            lemma_args_push(items.take(k), items[k]);
        }
    }
    assert(items.take(items.len() as int) =~= items);
    let ghost mid = out@;
    let enc = debug.serialize_into_bytes();
    out.extend_from_slice(enc.as_slice());
    let enc = docs.serialize_into_bytes();
    out.extend_from_slice(enc.as_slice());
    let enc = body.serialize_into_bytes();
    out.extend_from_slice(enc.as_slice());
    proof {
        reveal(function_tail);
        assert(out@ =~= mid + function_tail(f));
    }
    assert(out@ =~= start + function_bytes(f));
}

/// Appends the encoding of a function argument to a buffer
pub fn arg_into(a: FunctionArgument, out: &mut Vec<u8>)
    ensures
        arg_fits(a),
        final(out)@ == old(out)@ + arg_bytes(a),
    decreases a,
{
    let ghost start = out@;
    let FunctionArgument { name_hash, ty, default } = a;
    let enc = name_hash.serialize_into_bytes();
    out.extend_from_slice(enc.as_slice());
    out.push(ty.code());
    match default {
        Some(d) => {
            out.push(1u8);
            value_into(d, out);
        },
        None => {
            out.push(0u8);
        },
    }
    assert(out@ =~= start + arg_bytes(a));
}

/// The code that starts a value's encoding
pub open spec fn value_code(v: Value) -> u8 {
    match v {
        Value::Primitive(_) => type_code(ValueType::Primitive),
        Value::Function(_) => type_code(ValueType::Function),
        Value::Array(_) => type_code(ValueType::Array),
        Value::Object(_) => type_code(ValueType::Object),
        Value::Range(_) => type_code(ValueType::Range),
    }
}

/// What follows the code in a value's encoding
pub open spec fn value_body(v: Value) -> Seq<u8> {
    match v {
        Value::Primitive(p) => p.encoding(),
        Value::Function(f) => function_bytes(f),
        Value::Array(a) => be_encode(a@.len(), 8) + values_bytes(a@),
        Value::Object(o) => be_encode(o.entries@.len(), 8) + entries_bytes(o.entries@),
        Value::Range(r) => r.start.encoding() + r.end.encoding(),
    }
}

/// A value's encoding is its code followed by its body
proof fn lemma_value_split(v: Value, tail: Seq<u8>)
    ensures
        value_bytes(v) + tail == seq![value_code(v)] + (value_body(v) + tail),
        (value_bytes(v) + tail).len() > 0,
        (value_bytes(v) + tail)[0] == value_code(v),
        (value_bytes(v) + tail).drop_first() == value_body(v) + tail,
{
    assert(value_bytes(v) =~= seq![value_code(v)] + value_body(v));
    assert(value_bytes(v) + tail =~= seq![value_code(v)] + (value_body(v) + tail));
    assert((seq![value_code(v)] + (value_body(v) + tail)).drop_first() =~= value_body(v) + tail);
}

/// The encoding of a run of values starting at the `i`-th is that value's
/// followed by the run from the next one on
proof fn lemma_values_skip(s: Seq<Value>, i: int)
    requires
        0 <= i < s.len(),
    ensures
        values_bytes(s.skip(i)) == value_bytes(s[i]) + values_bytes(s.skip(i + 1)),
{
    let t = s.skip(i);
    assert(t[0] == s[i]);
    assert(t.subrange(1, t.len() as int) =~= s.skip(i + 1));
}

/// The encoding of a run of entries starting at the `i`-th is that entry's
/// followed by the run from the next one on
proof fn lemma_entries_skip(s: Seq<(Primitive, Value)>, i: int)
    requires
        0 <= i < s.len(),
    ensures
        entries_bytes(s.skip(i)) == s[i].0.encoding() + value_bytes(s[i].1) + entries_bytes(s.skip(i + 1)),
{
    let t = s.skip(i);
    assert(t[0] == s[i]);
    assert(t.subrange(1, t.len() as int) =~= s.skip(i + 1));
}

/// The encoding of a run of arguments starting at the `i`-th is that
/// argument's followed by the run from the next one on
proof fn lemma_args_skip(s: Seq<FunctionArgument>, i: int)
    requires
        0 <= i < s.len(),
    ensures
        args_bytes(s.skip(i)) == arg_bytes(s[i]) + args_bytes(s.skip(i + 1)),
{
    let t = s.skip(i);
    assert(t[0] == s[i]);
    assert(t.subrange(1, t.len() as int) =~= s.skip(i + 1));
}

/// Reads a count: eight bytes, most significant first
fn read_count(bytes: &mut ByteReader) -> (r: Result<u128, ByteDecodeError>)
    ensures
        r matches Ok(n) ==> n < pow256(8) && old(bytes).rest() == be_encode(n as nat, 8) + final(bytes).rest(),
        forall|n: nat, tail: Seq<u8>|
            n < pow256(8) && old(bytes).rest() == #[trigger] (be_encode(n, 8) + tail) ==> r
                == Ok::<u128, ByteDecodeError>(n as u128) && final(bytes).rest() == tail,
{
    let ghost start = bytes.rest();
    proof {
        lemma_pow256_values();
        assert forall|n: nat, tail: Seq<u8>| n < pow256(8) && start == #[trigger] (be_encode(n, 8) + tail) implies start.len() >= 8
            && be_decode_of(start) == n && start.skip(8) == tail by {
            crate::traits::lemma_be_encode_len(n, 8);
            lemma_take_encoded(n, 8, tail);
        }
    }
    let n = read_be(bytes, 8)?;
    proof {
        lemma_fixed_read(start, n as nat, 8);
    }
    Ok(n)
}

/// The number the first eight bytes of a buffer stand for
spec fn be_decode_of(s: Seq<u8>) -> nat {
    crate::traits::be_decode(s.take(8))
}

/// Reads a value: the inverse of `value_into`. A type code that stands for no
/// kind of value, or a malformed part, is an error; so is a buffer that ends
/// early
pub fn value_from(bytes: &mut ByteReader) -> (r: Result<Value, ByteDecodeError>)
    ensures
        r matches Ok(v) ==> value_fits(v) && old(bytes).rest() == value_bytes(v) + final(bytes).rest(),
        forall|v: Value, tail: Seq<u8>|
            value_fits(v) && old(bytes).rest() == #[trigger] (value_bytes(v) + tail) ==> r is Ok,
    decreases old(bytes).rest().len(),
{
    let ghost start = bytes.rest();
    proof {
        lemma_pow256_values();
        assert forall|v: Value, tail: Seq<u8>| value_fits(v) && start == #[trigger] (value_bytes(v) + tail) implies start.len() > 0
            && start[0] == value_code(v) && start.drop_first() == value_body(v) + tail by {
            lemma_value_split(v, tail);
        }
    }
    let code = match bytes.next() {
        Some(c) => c,
        None => {
            return Err(ByteDecodeError::UnexpectedEnd);
        },
    };
    let ghost body = bytes.rest();
    assert(start =~= seq![code] + body);
    if code == ValueType::Primitive.code() {
        proof {
            assert forall|v: Value, tail: Seq<u8>| value_fits(v) && start == #[trigger] (value_bytes(v) + tail) implies v is Primitive
                && body == v->Primitive_0.encoding() + tail by {}
        }
        match Primitive::deserialize_from_bytes(bytes) {
            Ok(p) => {
                proof { lemma_value_split(Value::Primitive(p), bytes.rest()); }
                Ok(Value::Primitive(p))
            },
            Err(e) => {
                proof {
                    assert forall|v: Value, tail: Seq<u8>| value_fits(v) && start == #[trigger] (value_bytes(v) + tail) implies false by {
                        assert(body == v->Primitive_0.encoding() + tail);
                    }
                }
                Err(e)
            },
        }
    } else if code == ValueType::Function.code() {
        proof {
            assert forall|v: Value, tail: Seq<u8>| value_fits(v) && start == #[trigger] (value_bytes(v) + tail) implies v is Function
                && body == function_bytes(v->Function_0) + tail by {}
        }
        match function_from(bytes) {
            Ok(f) => {
                proof { lemma_value_split(Value::Function(f), bytes.rest()); }
                Ok(Value::Function(f))
            },
            Err(e) => {
                proof {
                    assert forall|v: Value, tail: Seq<u8>| value_fits(v) && start == #[trigger] (value_bytes(v) + tail) implies false by {
                        assert(body == function_bytes(v->Function_0) + tail);
                    }
                }
                Err(e)
            },
        }
    } else if code == ValueType::Array.code() {
        proof {
            assert forall|v: Value, tail: Seq<u8>| value_fits(v) && start == #[trigger] (value_bytes(v) + tail) implies v is Array
                && body == be_encode(v->Array_0@.len(), 8) + (values_bytes(v->Array_0@) + tail) by {
                assert(value_body(v) + tail =~= be_encode(v->Array_0@.len(), 8) + (values_bytes(v->Array_0@) + tail));
            }
        }
        let len = match read_count(bytes) {
            Ok(n) => n,
            Err(e) => {
                proof {
                    assert forall|v: Value, tail: Seq<u8>| value_fits(v) && start == #[trigger] (value_bytes(v) + tail) implies false by {
                        assert(body == be_encode(v->Array_0@.len(), 8) + (values_bytes(v->Array_0@) + tail));
                    }
                }
                return Err(e);
            },
        };
        let ghost after_len = bytes.rest();
        proof {
            assert forall|v: Value, tail: Seq<u8>| value_fits(v) && start == #[trigger] (value_bytes(v) + tail) implies v->Array_0@.len() == len
                && after_len == values_bytes(v->Array_0@.skip(0)) + tail by {
                assert(body == be_encode(v->Array_0@.len(), 8) + (values_bytes(v->Array_0@) + tail));
                assert(v->Array_0@.skip(0) =~= v->Array_0@);
            }
        }
        let mut items: Vec<Value> = Vec::new();
        let mut i: u128 = 0;
        assert(after_len =~= values_bytes(items@) + bytes.rest());
        while i < len
            invariant
                i <= len,
                len < pow256(8),
                start == old(bytes).rest(),
                start == seq![code] + body,
                code == type_code(ValueType::Array),
                body == be_encode(len as nat, 8) + after_len,
                items@.len() == i,
                values_fit(items@),
                after_len == values_bytes(items@) + bytes.rest(),
                forall|v: Value, tail: Seq<u8>|
                    value_fits(v) && start == #[trigger] (value_bytes(v) + tail) ==> v is Array
                        && v->Array_0@.len() == len
                        && bytes.rest() == values_bytes(v->Array_0@.skip(i as int)) + tail,
            decreases len - i,
        {
            let ghost before = bytes.rest();
            proof {
                assert forall|v: Value, tail: Seq<u8>| value_fits(v) && start == #[trigger] (value_bytes(v) + tail) implies
                    before == value_bytes(v->Array_0@[i as int]) + (values_bytes(v->Array_0@.skip(i + 1)) + tail) by {
                    lemma_values_skip(v->Array_0@, i as int);
                }
            }
            let x = match value_from(bytes) {
                Ok(x) => x,
                Err(e) => {
                    proof {
                        assert forall|v: Value, tail: Seq<u8>| value_fits(v) && start == #[trigger] (value_bytes(v) + tail) implies false by {
                            let item = v->Array_0@[i as int];
                            assert(value_fits(item));
                            assert(before == value_bytes(item) + (values_bytes(v->Array_0@.skip(i + 1)) + tail));
                        }
                    }
                    return Err(e);
                },
            };
            proof {
                assert forall|v: Value, tail: Seq<u8>| value_fits(v) && start == #[trigger] (value_bytes(v) + tail) implies
                    bytes.rest() == values_bytes(v->Array_0@.skip(i + 1)) + tail by {
                    let item = v->Array_0@[i as int];
                    assert(value_fits(item));
                    lemma_value_prefix_free(x, item, bytes.rest(), values_bytes(v->Array_0@.skip(i + 1)) + tail);
                }
                lemma_values_push(items@, x);
                assert(after_len =~= values_bytes(items@.push(x)) + bytes.rest());
            }
            items.push(x);
            i = i + 1;
        }
        let v = Value::Array(items);
        proof {
            lemma_value_split(v, bytes.rest());
            assert(start =~= value_bytes(v) + bytes.rest());
        }
        Ok(v)
    } else if code == ValueType::Object.code() {
        proof {
            assert forall|v: Value, tail: Seq<u8>| value_fits(v) && start == #[trigger] (value_bytes(v) + tail) implies v is Object
                && body == be_encode(v->Object_0.entries@.len(), 8) + (entries_bytes(v->Object_0.entries@) + tail) by {
                assert(value_body(v) + tail =~= be_encode(v->Object_0.entries@.len(), 8) + (entries_bytes(v->Object_0.entries@) + tail));
            }
        }
        let len = match read_count(bytes) {
            Ok(n) => n,
            Err(e) => {
                proof {
                    assert forall|v: Value, tail: Seq<u8>| value_fits(v) && start == #[trigger] (value_bytes(v) + tail) implies false by {
                        assert(body == be_encode(v->Object_0.entries@.len(), 8) + (entries_bytes(v->Object_0.entries@) + tail));
                    }
                }
                return Err(e);
            },
        };
        let ghost after_len = bytes.rest();
        proof {
            assert forall|v: Value, tail: Seq<u8>| value_fits(v) && start == #[trigger] (value_bytes(v) + tail) implies v->Object_0.entries@.len() == len
                && after_len == entries_bytes(v->Object_0.entries@.skip(0)) + tail by {
                assert(body == be_encode(v->Object_0.entries@.len(), 8) + (entries_bytes(v->Object_0.entries@) + tail));
                assert(v->Object_0.entries@.skip(0) =~= v->Object_0.entries@);
            }
        }
        let mut entries: Vec<(Primitive, Value)> = Vec::new();
        let mut i: u128 = 0;
        assert(after_len =~= entries_bytes(entries@) + bytes.rest());
        while i < len
            invariant
                i <= len,
                len < pow256(8),
                start == old(bytes).rest(),
                start == seq![code] + body,
                code == type_code(ValueType::Object),
                body == be_encode(len as nat, 8) + after_len,
                entries@.len() == i,
                entries_fit(entries@),
                after_len == entries_bytes(entries@) + bytes.rest(),
                forall|v: Value, tail: Seq<u8>|
                    value_fits(v) && start == #[trigger] (value_bytes(v) + tail) ==> v is Object
                        && v->Object_0.entries@.len() == len
                        && bytes.rest() == entries_bytes(v->Object_0.entries@.skip(i as int)) + tail,
            decreases len - i,
        {
            let ghost before = bytes.rest();
            proof {
                assert forall|v: Value, tail: Seq<u8>| value_fits(v) && start == #[trigger] (value_bytes(v) + tail) implies
                    before == v->Object_0.entries@[i as int].0.encoding() + (value_bytes(v->Object_0.entries@[i as int].1)
                        + (entries_bytes(v->Object_0.entries@.skip(i + 1)) + tail)) by {
                    let es = v->Object_0.entries@;
                    lemma_entries_skip(es, i as int);
                    assert(entries_bytes(es.skip(i as int)) + tail =~= es[i as int].0.encoding() + (value_bytes(es[i as int].1)
                        + (entries_bytes(es.skip(i + 1)) + tail)));
                }
            }
            let key = match Primitive::deserialize_from_bytes(bytes) {
                Ok(k) => k,
                Err(e) => {
                    proof {
                        assert forall|v: Value, tail: Seq<u8>| value_fits(v) && start == #[trigger] (value_bytes(v) + tail) implies false by {
                            let e = v->Object_0.entries@[i as int];
                            assert(e.0.encodable());
                            assert(before == e.0.encoding() + (value_bytes(e.1) + (entries_bytes(v->Object_0.entries@.skip(i + 1)) + tail)));
                        }
                    }
                    return Err(e);
                },
            };
            let ghost mid = bytes.rest();
            proof {
                assert forall|v: Value, tail: Seq<u8>| value_fits(v) && start == #[trigger] (value_bytes(v) + tail) implies
                    mid == value_bytes(v->Object_0.entries@[i as int].1) + (entries_bytes(v->Object_0.entries@.skip(i + 1)) + tail) by {
                    let e = v->Object_0.entries@[i as int];
                    assert(e.0.encodable());
                    Primitive::lemma_prefix_free(key, e.0, mid, value_bytes(e.1) + (entries_bytes(v->Object_0.entries@.skip(i + 1)) + tail));
                }
            }
            let x = match value_from(bytes) {
                Ok(x) => x,
                Err(e) => {
                    proof {
                        assert forall|v: Value, tail: Seq<u8>| value_fits(v) && start == #[trigger] (value_bytes(v) + tail) implies false by {
                            let e = v->Object_0.entries@[i as int];
                            assert(value_fits(e.1));
                            assert(mid == value_bytes(e.1) + (entries_bytes(v->Object_0.entries@.skip(i + 1)) + tail));
                        }
                    }
                    return Err(e);
                },
            };
            proof {
                assert forall|v: Value, tail: Seq<u8>| value_fits(v) && start == #[trigger] (value_bytes(v) + tail) implies
                    bytes.rest() == entries_bytes(v->Object_0.entries@.skip(i + 1)) + tail by {
                    let e = v->Object_0.entries@[i as int];
                    assert(value_fits(e.1));
                    lemma_value_prefix_free(x, e.1, bytes.rest(), entries_bytes(v->Object_0.entries@.skip(i + 1)) + tail);
                }
                lemma_entries_push(entries@, (key, x));
                assert(after_len =~= entries_bytes(entries@.push((key, x))) + bytes.rest());
            }
            entries.push((key, x));
            i = i + 1;
        }
        let v = Value::Object(ObjectMap { entries });
        proof {
            lemma_value_split(v, bytes.rest());
            assert(start =~= value_bytes(v) + bytes.rest());
        }
        Ok(v)
    } else if code == ValueType::Range.code() {
        proof {
            assert forall|v: Value, tail: Seq<u8>| value_fits(v) && start == #[trigger] (value_bytes(v) + tail) implies v is Range
                && body == v->Range_0.start.encoding() + (v->Range_0.end.encoding() + tail) by {
                assert(value_body(v) + tail =~= v->Range_0.start.encoding() + (v->Range_0.end.encoding() + tail));
            }
        }
        let lo = match i128::deserialize_from_bytes(bytes) {
            Ok(x) => x,
            Err(e) => {
                proof {
                    assert forall|v: Value, tail: Seq<u8>| value_fits(v) && start == #[trigger] (value_bytes(v) + tail) implies false by {
                        assert(body == v->Range_0.start.encoding() + (v->Range_0.end.encoding() + tail));
                    }
                }
                return Err(e);
            },
        };
        let ghost after_lo = bytes.rest();
        let hi = match i128::deserialize_from_bytes(bytes) {
            Ok(x) => x,
            Err(e) => {
                proof {
                    assert forall|v: Value, tail: Seq<u8>| value_fits(v) && start == #[trigger] (value_bytes(v) + tail) implies false by {
                        assert(body == v->Range_0.start.encoding() + (v->Range_0.end.encoding() + tail));
                    }
                }
                return Err(e);
            },
        };
        let v = Value::Range(lo..hi);
        proof {
            assert(body =~= lo.encoding() + (hi.encoding() + bytes.rest()));
            lemma_value_split(v, bytes.rest());
            assert(start =~= value_bytes(v) + bytes.rest());
        }
        Ok(v)
    } else {
        proof {
            assert forall|v: Value, tail: Seq<u8>| value_fits(v) && start == #[trigger] (value_bytes(v) + tail) implies false by {}
        }
        Err(ByteDecodeError::MalformedData(String::from_str("Invalid value type")))
    }
}

/// What follows a function's name hash in its encoding
spec fn after_hash(f: Function) -> Seq<u8> {
    seq![type_code(f.returns)] + (be_encode(f.expects@.len(), 8) + (args_bytes(f.expects@) + function_tail(f)))
}

/// A function's encoding is its name's hash followed by the rest
proof fn lemma_function_split(f: Function, tail: Seq<u8>)
    ensures
        function_bytes(f) + tail == f.name_hash.encoding() + (after_hash(f) + tail),
{
    assert(function_bytes(f) + tail =~= f.name_hash.encoding() + (after_hash(f) + tail));
}

/// Reads a function: the inverse of `function_into`. A return type whose code
/// stands for no type, or a malformed part, is an error; so is a buffer that
/// ends early
#[verifier::spinoff_prover]
#[verifier::rlimit(60)]
pub fn function_from(bytes: &mut ByteReader) -> (r: Result<Function, ByteDecodeError>)
    ensures
        r matches Ok(f) ==> function_fits(f) && old(bytes).rest() == function_bytes(f) + final(bytes).rest(),
        forall|f: Function, tail: Seq<u8>|
            function_fits(f) && old(bytes).rest() == #[trigger] (function_bytes(f) + tail) ==> r is Ok,
    decreases old(bytes).rest().len(),
{
    let ghost start = bytes.rest();
    proof {
        lemma_pow256_values();
        assert forall|f: Function, tail: Seq<u8>| function_fits(f) && start == #[trigger] (function_bytes(f) + tail) implies
            start == f.name_hash.encoding() + (after_hash(f) + tail) by {
            lemma_function_split(f, tail);
        }
    }
    let name_hash = match u64::deserialize_from_bytes(bytes) {
        Ok(h) => h,
        Err(e) => {
            proof {
                assert forall|f: Function, tail: Seq<u8>| function_fits(f) && start == #[trigger] (function_bytes(f) + tail) implies false by {
                    assert(start == f.name_hash.encoding() + (after_hash(f) + tail));
                }
            }
            return Err(e);
        },
    };
    let ghost after_name = bytes.rest();
    proof {
        assert forall|f: Function, tail: Seq<u8>| function_fits(f) && start == #[trigger] (function_bytes(f) + tail) implies
            f.name_hash == name_hash && after_name == after_hash(f) + tail by {
            assert(start == f.name_hash.encoding() + (after_hash(f) + tail));
        }
        assert forall|f: Function, tail: Seq<u8>| function_fits(f) && start == #[trigger] (function_bytes(f) + tail) implies
            after_name.len() > 0 && after_name[0] == type_code(f.returns) && after_name.drop_first()
                == be_encode(f.expects@.len(), 8) + (args_bytes(f.expects@) + (function_tail(f) + tail)) by {
            assert(after_name == after_hash(f) + tail);
            assert(after_hash(f) + tail =~= seq![type_code(f.returns)] + (be_encode(f.expects@.len(), 8) + (args_bytes(f.expects@) + (function_tail(f) + tail))));
        }
    }
    let code = match bytes.next() {
        Some(c) => c,
        None => return Err(ByteDecodeError::UnexpectedEnd),
    };
    let ret = match ValueType::from_u8(code) {
        Some(t) => t,
        None => {
            proof {
                assert forall|f: Function, tail: Seq<u8>| function_fits(f) && start == #[trigger] (function_bytes(f) + tail) implies false by {
                    crate::value::types::lemma_type_code_roundtrip(f.returns);
                }
            }
            return Err(ByteDecodeError::MalformedData(String::from_str("Invalid return type")));
        },
    };
    proof {
        assert forall|f: Function, tail: Seq<u8>| function_fits(f) && start == #[trigger] (function_bytes(f) + tail) implies
            f.returns == ret by {
            crate::value::types::lemma_type_code_roundtrip(f.returns);
        }
    }
    let len = match read_count(bytes) {
        Ok(n) => n,
        Err(e) => {
            proof {
                assert forall|f: Function, tail: Seq<u8>| function_fits(f) && start == #[trigger] (function_bytes(f) + tail) implies false by {
                    assert(after_name.drop_first() == be_encode(f.expects@.len(), 8) + (args_bytes(f.expects@) + (function_tail(f) + tail)));
                }
            }
            return Err(e);
        },
    };
    let ghost after_len = bytes.rest();
    proof {
        assert forall|f: Function, tail: Seq<u8>| function_fits(f) && start == #[trigger] (function_bytes(f) + tail) implies
            f.expects@.len() == len && after_len == args_bytes(f.expects@.skip(0)) + (function_tail(f) + tail) by {
            assert(after_name.drop_first() == be_encode(f.expects@.len(), 8) + (args_bytes(f.expects@) + (function_tail(f) + tail)));
            assert(f.expects@.skip(0) =~= f.expects@);
        }
    }
    let mut expects: Vec<FunctionArgument> = Vec::new();
    let mut i: u128 = 0;
    assert(after_len =~= args_bytes(expects@) + bytes.rest());
    while i < len
        invariant
            i <= len,
            len < pow256(8),
            start == old(bytes).rest(),
            start == name_hash.encoding() + after_name,
            after_name == seq![code] + (be_encode(len as nat, 8) + after_len),
            code == type_code(ret),
            expects@.len() == i,
            args_fit(expects@),
            after_len == args_bytes(expects@) + bytes.rest(),
            forall|f: Function, tail: Seq<u8>|
                function_fits(f) && start == #[trigger] (function_bytes(f) + tail) ==> f.expects@.len() == len
                    && bytes.rest() == args_bytes(f.expects@.skip(i as int)) + (function_tail(f) + tail),
        decreases len - i,
    {
        let ghost before = bytes.rest();
        proof {
            assert(name_hash.encoding().len() == 8) by {
                crate::traits::lemma_be_encode_len(name_hash as nat, 8);
            }
            assert forall|f: Function, tail: Seq<u8>| function_fits(f) && start == #[trigger] (function_bytes(f) + tail) implies
                before == arg_bytes(f.expects@[i as int]) + (args_bytes(f.expects@.skip(i + 1)) + (function_tail(f) + tail)) by {
                lemma_args_skip(f.expects@, i as int);
                assert(args_bytes(f.expects@.skip(i as int)) + (function_tail(f) + tail) =~= arg_bytes(f.expects@[i as int])
                    + (args_bytes(f.expects@.skip(i + 1)) + (function_tail(f) + tail)));
            }
        }
        let x = match arg_from(bytes) {
            Ok(x) => x,
            Err(e) => {
                proof {
                    assert forall|f: Function, tail: Seq<u8>| function_fits(f) && start == #[trigger] (function_bytes(f) + tail) implies false by {
                        let a = f.expects@[i as int];
                        assert(arg_fits(a));
                        assert(before == arg_bytes(a) + (args_bytes(f.expects@.skip(i + 1)) + (function_tail(f) + tail)));
                    }
                }
                return Err(e);
            },
        };
        proof {
            assert forall|f: Function, tail: Seq<u8>| function_fits(f) && start == #[trigger] (function_bytes(f) + tail) implies
                bytes.rest() == args_bytes(f.expects@.skip(i + 1)) + (function_tail(f) + tail) by {
                let a = f.expects@[i as int];
                assert(arg_fits(a));
                lemma_arg_prefix_free(x, a, bytes.rest(), args_bytes(f.expects@.skip(i + 1)) + (function_tail(f) + tail));
            }
            lemma_args_push(expects@, x);
            assert(after_len =~= args_bytes(expects@.push(x)) + bytes.rest());
        }
        expects.push(x);
        i = i + 1;
    }
    let ghost after_args = bytes.rest();
    proof {
        reveal(function_tail);
        assert forall|f: Function, tail: Seq<u8>| function_fits(f) && start == #[trigger] (function_bytes(f) + tail) implies
            after_args == f.debug.encoding() + (f.docs.encoding() + (f.body.encoding() + tail)) by {
            assert(f.expects@.skip(len as int) =~= Seq::<FunctionArgument>::empty());
            assert(after_args == args_bytes(f.expects@.skip(len as int)) + (function_tail(f) + tail));
            assert(after_args =~= f.debug.encoding() + (f.docs.encoding() + (f.body.encoding() + tail)));
        }
    }
    let debug = match Option::<crate::compiler::debug_profile::DebugProfile>::deserialize_from_bytes(bytes) {
        Ok(d) => d,
        Err(e) => {
            proof {
                assert forall|f: Function, tail: Seq<u8>| function_fits(f) && start == #[trigger] (function_bytes(f) + tail) implies false by {
                    assert(after_args == f.debug.encoding() + (f.docs.encoding() + (f.body.encoding() + tail)));
                }
            }
            return Err(e);
        },
    };
    let ghost after_debug = bytes.rest();
    proof {
        assert forall|f: Function, tail: Seq<u8>| function_fits(f) && start == #[trigger] (function_bytes(f) + tail) implies
            after_debug == f.docs.encoding() + (f.body.encoding() + tail) by {
            assert(after_args == f.debug.encoding() + (f.docs.encoding() + (f.body.encoding() + tail)));
            Option::<crate::compiler::debug_profile::DebugProfile>::lemma_prefix_free(debug, f.debug, after_debug, f.docs.encoding() + (f.body.encoding() + tail));
        }
    }
    let docs = match crate::compiler::function_docs::FunctionDocs::deserialize_from_bytes(bytes) {
        Ok(d) => d,
        Err(e) => {
            proof {
                assert forall|f: Function, tail: Seq<u8>| function_fits(f) && start == #[trigger] (function_bytes(f) + tail) implies false by {
                    assert(after_debug == f.docs.encoding() + (f.body.encoding() + tail));
                }
            }
            return Err(e);
        },
    };
    let ghost after_docs = bytes.rest();
    proof {
        assert forall|f: Function, tail: Seq<u8>| function_fits(f) && start == #[trigger] (function_bytes(f) + tail) implies
            after_docs == f.body.encoding() + tail by {
            assert(after_debug == f.docs.encoding() + (f.body.encoding() + tail));
            crate::compiler::function_docs::FunctionDocs::lemma_prefix_free(docs, f.docs, after_docs, f.body.encoding() + tail);
        }
    }
    let body = match Vec::<u8>::deserialize_from_bytes(bytes) {
        Ok(b) => b,
        Err(e) => {
            proof {
                assert forall|f: Function, tail: Seq<u8>| function_fits(f) && start == #[trigger] (function_bytes(f) + tail) implies false by {
                    assert(after_docs == f.body.encoding() + tail);
                }
            }
            return Err(e);
        },
    };
    let f = Function { name_hash, returns: ret, expects, debug, docs, body };
    proof {
        reveal(function_tail);
        lemma_function_split(f, bytes.rest());
        assert(after_args =~= function_tail(f) + bytes.rest());
        assert(after_name =~= after_hash(f) + bytes.rest());
    }
    Ok(f)
}

/// Reads a function argument: the inverse of `arg_into`. A type code that
/// stands for no type, or a default-value tag other than `0` or `1`, is
/// malformed data
pub fn arg_from(bytes: &mut ByteReader) -> (r: Result<FunctionArgument, ByteDecodeError>)
    ensures
        r matches Ok(a) ==> arg_fits(a) && old(bytes).rest() == arg_bytes(a) + final(bytes).rest(),
        forall|a: FunctionArgument, tail: Seq<u8>|
            arg_fits(a) && old(bytes).rest() == #[trigger] (arg_bytes(a) + tail) ==> r is Ok,
    decreases old(bytes).rest().len(),
{
    let ghost start = bytes.rest();
    proof {
        assert forall|a: FunctionArgument, tail: Seq<u8>| arg_fits(a) && start == #[trigger] (arg_bytes(a) + tail) implies
            start == a.name_hash.encoding() + (seq![type_code(a.ty)] + (default_bytes(a.default) + tail)) by {
            assert(arg_bytes(a) + tail =~= a.name_hash.encoding() + (seq![type_code(a.ty)] + (default_bytes(a.default) + tail)));
        }
    }
    let name_hash = match u64::deserialize_from_bytes(bytes) {
        Ok(h) => h,
        Err(e) => {
            proof {
                assert forall|a: FunctionArgument, tail: Seq<u8>| arg_fits(a) && start == #[trigger] (arg_bytes(a) + tail) implies false by {
                    assert(start == a.name_hash.encoding() + (seq![type_code(a.ty)] + (default_bytes(a.default) + tail)));
                }
            }
            return Err(e);
        },
    };
    let ghost after_name = bytes.rest();
    proof {
        assert forall|a: FunctionArgument, tail: Seq<u8>| arg_fits(a) && start == #[trigger] (arg_bytes(a) + tail) implies
            after_name.len() > 0 && after_name[0] == type_code(a.ty)
                && after_name.drop_first() == default_bytes(a.default) + tail by {
            assert(start == a.name_hash.encoding() + (seq![type_code(a.ty)] + (default_bytes(a.default) + tail)));
            assert((seq![type_code(a.ty)] + (default_bytes(a.default) + tail)).drop_first() =~= default_bytes(a.default) + tail);
        }
    }
    let code = match bytes.next() {
        Some(c) => c,
        None => return Err(ByteDecodeError::UnexpectedEnd),
    };
    let ty = match ValueType::from_u8(code) {
        Some(t) => t,
        None => {
            proof {
                assert forall|a: FunctionArgument, tail: Seq<u8>| arg_fits(a) && start == #[trigger] (arg_bytes(a) + tail) implies false by {
                    crate::value::types::lemma_type_code_roundtrip(a.ty);
                }
            }
            return Err(ByteDecodeError::MalformedData(String::from_str("Invalid argument type")));
        },
    };
    let ghost after_code = bytes.rest();
    proof {
        assert forall|a: FunctionArgument, tail: Seq<u8>| arg_fits(a) && start == #[trigger] (arg_bytes(a) + tail) implies
            a.ty == ty && after_code == default_bytes(a.default) + tail by {
            crate::value::types::lemma_type_code_roundtrip(a.ty);
        }
        assert forall|a: FunctionArgument, tail: Seq<u8>| arg_fits(a) && start == #[trigger] (arg_bytes(a) + tail) implies
            after_code.len() > 0 && after_code[0] == (if a.default is Some { 1u8 } else { 0u8 })
                && (a.default is Some ==> after_code.drop_first() == value_bytes(a.default->0) + tail)
                && (a.default is None ==> after_code.drop_first() == tail) by {
            assert(after_code == default_bytes(a.default) + tail);
            if a.default is Some {
                assert(default_bytes(a.default) + tail =~= seq![1u8] + (value_bytes(a.default->0) + tail));
                assert((seq![1u8] + (value_bytes(a.default->0) + tail)).drop_first() =~= value_bytes(a.default->0) + tail);
            } else {
                assert(default_bytes(a.default) + tail =~= seq![0u8] + tail);
                assert((seq![0u8] + tail).drop_first() =~= tail);
            }
        }
    }
    let tag = match bytes.next() {
        Some(t) => t,
        None => return Err(ByteDecodeError::UnexpectedEnd),
    };
    let ghost after_tag = bytes.rest();
    assert(after_code =~= seq![tag] + after_tag);
    let default = if tag == 0 {
        None
    } else if tag == 1 {
        match value_from(bytes) {
            Ok(v) => Some(v),
            Err(e) => {
                proof {
                    assert forall|a: FunctionArgument, tail: Seq<u8>| arg_fits(a) && start == #[trigger] (arg_bytes(a) + tail) implies false by {
                        assert(a.default is Some);
                        assert(value_fits(a.default->0));
                        assert(after_code.drop_first() == value_bytes(a.default->0) + tail);
                    }
                }
                return Err(e);
            },
        }
    } else {
        proof {
            assert forall|a: FunctionArgument, tail: Seq<u8>| arg_fits(a) && start == #[trigger] (arg_bytes(a) + tail) implies false by {}
        }
        return Err(ByteDecodeError::MalformedData(String::from_str("Invalid Option")));
    };
    let a = FunctionArgument { name_hash, ty, default };
    proof {
        if tag == 0 {
            assert(after_tag == bytes.rest());
        }
        assert(type_code(ty) == code);
        assert(after_name =~= seq![code] + after_code);
        assert(after_code =~= default_bytes(default) + bytes.rest());
        assert(start =~= arg_bytes(a) + bytes.rest());
    }
    Ok(a)
}

/// The bytes that encode an argument's default value: a tag, then the value
pub open spec fn default_bytes(d: Option<Value>) -> Seq<u8> {
    match d {
        Some(v) => seq![1u8] + value_bytes(v),
        None => seq![0u8],
    }
}

impl SerializeToBytes for Value {
    open spec fn encoding(&self) -> Seq<u8> {
        value_bytes(*self)
    }

    open spec fn encodable(&self) -> bool {
        value_fits(*self)
    }

    proof fn lemma_prefix_free(a: Self, b: Self, r1: Seq<u8>, r2: Seq<u8>) {
        lemma_value_prefix_free(a, b, r1, r2);
    }

    fn serialize_into_bytes(self) -> (bytes: Vec<u8>) {
        let mut out: Vec<u8> = Vec::new();
        value_into(self, &mut out);
        assert(out@ =~= value_bytes(self));
        out
    }

    fn deserialize_from_bytes(bytes: &mut ByteReader) -> (r: Result<Self, ByteDecodeError>) {
        value_from(bytes)
    }
}

impl SerializeToBytes for Function {
    open spec fn encoding(&self) -> Seq<u8> {
        function_bytes(*self)
    }

    open spec fn encodable(&self) -> bool {
        function_fits(*self)
    }

    proof fn lemma_prefix_free(a: Self, b: Self, r1: Seq<u8>, r2: Seq<u8>) {
        lemma_function_prefix_free(a, b, r1, r2);
    }

    fn serialize_into_bytes(self) -> (bytes: Vec<u8>) {
        let mut out: Vec<u8> = Vec::new();
        function_into(self, &mut out);
        assert(out@ =~= function_bytes(self));
        out
    }

    fn deserialize_from_bytes(bytes: &mut ByteReader) -> (r: Result<Self, ByteDecodeError>) {
        function_from(bytes)
    }
}

impl SerializeToBytes for FunctionArgument {
    open spec fn encoding(&self) -> Seq<u8> {
        arg_bytes(*self)
    }

    open spec fn encodable(&self) -> bool {
        arg_fits(*self)
    }

    proof fn lemma_prefix_free(a: Self, b: Self, r1: Seq<u8>, r2: Seq<u8>) {
        lemma_arg_prefix_free(a, b, r1, r2);
    }

    fn serialize_into_bytes(self) -> (bytes: Vec<u8>) {
        let mut out: Vec<u8> = Vec::new();
        arg_into(self, &mut out);
        assert(out@ =~= arg_bytes(self));
        out
    }

    fn deserialize_from_bytes(bytes: &mut ByteReader) -> (r: Result<Self, ByteDecodeError>) {
        arg_from(bytes)
    }
}

} // verus!
