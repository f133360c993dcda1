//! Traits used across the compiler: ownership conversion and the byte
//! encoding shared by bytecode, debug profiles and function sets.
use vstd::arithmetic::div_mod::*;
use vstd::prelude::*;
use vstd::utf8::*;
use crate::text::string_from_utf8;

verus! {

/// Trait for converting a type into an owned version of itself
pub trait IntoOwned {
    /// The owned version of the type
    type Owned;

    /// Convert the type into an owned version
    fn into_owned(self) -> Self::Owned;
}

/// Error found when decoding bytes
#[derive(Debug, Clone, PartialEq)]
pub enum ByteDecodeError {
    /// Buffer was too short
    UnexpectedEnd,
    /// No data was available
    NoData,
    /// Invalid data was found in the header
    InvalidHeader(String),
    /// Invalid data was found
    MalformedData(String),
}

/// A cursor over a byte buffer; the source of every decoding operation.
pub struct ByteReader {
    bytes: Vec<u8>,
    pos: usize,
}

impl ByteReader {
    /// The bytes that have not been consumed yet
    pub closed spec fn rest(&self) -> Seq<u8> {
        if self.pos <= self.bytes@.len() {
            self.bytes@.subrange(self.pos as int, self.bytes@.len() as int)
        } else {
            Seq::empty()
        }
    }

    /// Create a reader positioned at the start of `bytes`
    pub fn new(bytes: Vec<u8>) -> (r: Self)
        ensures
            r.rest() == bytes@,
    {
        let r = ByteReader { bytes, pos: 0 };
        assert(r.bytes@.subrange(0, r.bytes@.len() as int) =~= r.bytes@);
        r
    }

    /// Number of bytes left to read
    pub fn remaining(&self) -> (n: usize)
        ensures
            n == self.rest().len(),
    {
        if self.pos <= self.bytes.len() {
            self.bytes.len() - self.pos
        } else {
            0
        }
    }

    /// Read one byte
    pub fn next(&mut self) -> (r: Option<u8>)
        ensures
            old(self).rest().len() == 0 ==> r is None && final(self).rest() == old(self).rest(),
            old(self).rest().len() > 0 ==> r == Some(old(self).rest()[0]) && final(self).rest()
                == old(self).rest().drop_first(),
    {
        if self.pos < self.bytes.len() {
            let b = self.bytes[self.pos];
            self.pos = self.pos + 1;
            assert(self.rest() =~= old(self).rest().drop_first());
            Some(b)
        } else {
            None
        }
    }

    /// Read exactly `n` bytes; when fewer are left, all of them are consumed and
    /// nothing is returned
    pub fn next_n(&mut self, n: usize) -> (r: Option<Vec<u8>>)
        ensures
            old(self).rest().len() >= n ==> r is Some && r->0@ == old(self).rest().take(n as int)
                && final(self).rest() == old(self).rest().skip(n as int),
            old(self).rest().len() < n ==> r is None && final(self).rest().len() == 0,
    {
        let avail = self.remaining();
        if avail < n {
            self.pos = self.bytes.len();
            assert(self.rest() =~= Seq::<u8>::empty());
            return None;
        }
        let mut out: Vec<u8> = Vec::new();
        let ghost start = self.rest();
        let mut i: usize = 0;
        while i < n
            invariant
                i <= n,
                n <= start.len(),
                self.rest() == start.skip(i as int),
                out@ == start.take(i as int),
            decreases n - i,
        {
            let b = self.next();
            proof {
                assert(start.skip(i as int).drop_first() =~= start.skip(i + 1));
                assert(start.take(i + 1) =~= start.take(i as int).push(start[i as int]));
            }
            out.push(b.unwrap());
            i = i + 1;
        }
        Some(out)
    }
}

/// `256^n`
pub open spec fn pow256(n: nat) -> nat
    decreases n,
{
    if n == 0 {
        1
    } else {
        256 * pow256((n - 1) as nat)
    }
}

/// The `n` least significant base-256 digits of `x`, most significant first
pub open spec fn be_encode(x: nat, n: nat) -> Seq<u8>
    decreases n,
{
    if n == 0 {
        Seq::empty()
    } else {
        be_encode(x / 256, (n - 1) as nat).push((x % 256) as u8)
    }
}

/// The number whose base-256 digits, most significant first, are `s`
pub open spec fn be_decode(s: Seq<u8>) -> nat
    decreases s.len(),
{
    if s.len() == 0 {
        0
    } else {
        be_decode(s.drop_last()) * 256 + s.last() as nat
    }
}

pub proof fn lemma_pow256_pos(n: nat)
    ensures
        pow256(n) > 0,
    decreases n,
{
    if n > 0 {
        lemma_pow256_pos((n - 1) as nat);
    }
}

pub proof fn lemma_pow256_values()
    ensures
        pow256(1) == 0x100,
        pow256(2) == 0x1_0000,
        pow256(4) == 0x1_0000_0000,
        pow256(8) == 0x1_0000_0000_0000_0000,
        pow256(16) == 0x1_0000_0000_0000_0000_0000_0000_0000_0000,
{
    reveal_with_fuel(pow256, 17);
}

pub broadcast proof fn lemma_be_encode_len(x: nat, n: nat)
    ensures
        #[trigger] be_encode(x, n).len() == n,
    decreases n,
{
    if n > 0 {
        lemma_be_encode_len(x / 256, (n - 1) as nat);
    }
}

pub proof fn lemma_be_decode_bound(s: Seq<u8>)
    ensures
        be_decode(s) < pow256(s.len()),
    decreases s.len(),
{
    if s.len() > 0 {
        lemma_be_decode_bound(s.drop_last());
    }
}

/// Decoding the `n`-digit encoding of `x` gives `x` modulo `256^n`
pub proof fn lemma_be_decode_encode(x: nat, n: nat)
    ensures
        be_decode(be_encode(x, n)) == x % pow256(n),
    decreases n,
{
    if n > 0 {
        let p = pow256((n - 1) as nat);
        lemma_pow256_pos((n - 1) as nat);
        lemma_be_decode_encode(x / 256, (n - 1) as nat);
        let e = be_encode(x / 256, (n - 1) as nat);
        assert(e.push((x % 256) as u8).drop_last() =~= e);
        lemma_breakdown(x as int, 256, p as int);
    }
}

/// Encoding the value of a digit sequence gives the sequence back
pub proof fn lemma_be_encode_decode(s: Seq<u8>)
    ensures
        be_encode(be_decode(s), s.len()) == s,
    decreases s.len(),
{
    if s.len() > 0 {
        let d = be_decode(s);
        let q = be_decode(s.drop_last());
        lemma_be_encode_decode(s.drop_last());
        lemma_fundamental_div_mod_converse(d as int, 256, q as int, s.last() as int);
        assert(s.drop_last().push(s.last()) =~= s);
    }
}

/// Write `x` as `n` big-endian bytes at the end of `out`
fn push_be(x: u128, n: usize, out: &mut Vec<u8>)
    ensures
        final(out)@ == old(out)@ + be_encode(x as nat, n as nat),
    decreases n,
{
    if n > 0 {
        push_be(x / 256, n - 1, out);
        out.push((x % 256) as u8);
        assert(old(out)@ + be_encode(x as nat, n as nat) =~= old(out)@ + be_encode(
            (x / 256) as nat,
            (n - 1) as nat,
        ) + seq![(x % 256) as u8]);
    }
}

/// The `n`-byte big-endian encoding of `x`
fn encode_be(x: u128, n: usize) -> (r: Vec<u8>)
    ensures
        r@ == be_encode(x as nat, n as nat),
{
    let mut out = Vec::new();
    push_be(x, n, &mut out);
    assert(out@ =~= be_encode(x as nat, n as nat));
    out
}

/// Read `n` big-endian bytes as an unsigned number
pub(crate) fn read_be(bytes: &mut ByteReader, n: usize) -> (r: Result<u128, ByteDecodeError>)
    requires
        n <= 16,
    ensures
        old(bytes).rest().len() >= n ==> r is Ok && r->Ok_0 as nat == be_decode(
            old(bytes).rest().take(n as int),
        ) && final(bytes).rest() == old(bytes).rest().skip(n as int),
        old(bytes).rest().len() < n ==> r == Err::<u128, ByteDecodeError>(
            ByteDecodeError::UnexpectedEnd,
        ) && final(bytes).rest().len() == 0,
{
    let digits = match bytes.next_n(n) {
        Some(d) => d,
        None => return Err(ByteDecodeError::UnexpectedEnd),
    };
    let mut acc: u128 = 0;
    let mut i: usize = 0;
    proof {
        lemma_pow256_values();
    }
    while i < digits.len()
        invariant
            i <= digits@.len(),
            digits@.len() == n,
            n <= 16,
            acc as nat == be_decode(digits@.take(i as int)),
            pow256(16) == 0x1_0000_0000_0000_0000_0000_0000_0000_0000,
        decreases digits@.len() - i,
    {
        proof {
            assert(digits@.take(i + 1).drop_last() =~= digits@.take(i as int));
            lemma_be_decode_bound(digits@.take(i + 1));
            lemma_pow256_monotone((i + 1) as nat, 16);
        }
        acc = acc * 256 + digits[i] as u128;
        i = i + 1;
    }
    assert(digits@.take(n as int) =~= digits@);
    Ok(acc)
}

pub proof fn lemma_pow256_monotone(a: nat, b: nat)
    requires
        a <= b,
    ensures
        pow256(a) <= pow256(b),
    decreases b,
{
    if a < b {
        lemma_pow256_monotone(a, (b - 1) as nat);
        lemma_pow256_pos((b - 1) as nat);
    }
}

/// Take `n` digits from a buffer that starts with an `n`-digit encoding
pub proof fn lemma_take_encoded(x: nat, n: nat, tail: Seq<u8>)
    requires
        x < pow256(n),
    ensures
        (be_encode(x, n) + tail).take(n as int) == be_encode(x, n),
        (be_encode(x, n) + tail).skip(n as int) == tail,
        be_decode(be_encode(x, n)) == x,
{
    lemma_be_encode_len(x, n);
    lemma_be_decode_encode(x, n);
    vstd::arithmetic::div_mod::lemma_small_mod(x, pow256(n));
    assert((be_encode(x, n) + tail).take(n as int) =~= be_encode(x, n));
    assert((be_encode(x, n) + tail).skip(n as int) =~= tail);
}

/// Two buffers that start with `n`-digit encodings agree on the digits and on
/// what follows them
pub proof fn lemma_fixed_prefix(x: nat, y: nat, n: nat, r1: Seq<u8>, r2: Seq<u8>)
    requires
        x < pow256(n),
        y < pow256(n),
        be_encode(x, n) + r1 == be_encode(y, n) + r2,
    ensures
        x == y,
        r1 == r2,
{
    lemma_take_encoded(x, n, r1);
    lemma_take_encoded(y, n, r2);
}

/// Trait for serializing and deserializing types to bytes
pub trait SerializeToBytes where Self: Sized {
    /// The bytes that encode this value
    spec fn encoding(&self) -> Seq<u8>;

    /// The value's lengths fit the encoding's length fields
    spec fn encodable(&self) -> bool;

    /// No encoding is a proper prefix of another one that leads to a
    /// different split of the buffer
    proof fn lemma_prefix_free(a: Self, b: Self, r1: Seq<u8>, r2: Seq<u8>)
        requires
            a.encodable(),
            b.encodable(),
            a.encoding() + r1 == b.encoding() + r2,
        ensures
            a.encoding() == b.encoding(),
            r1 == r2,
    ;

    /// Convert the type to bytes
    fn serialize_into_bytes(self) -> (bytes: Vec<u8>)
        ensures
            self.encodable(),
            bytes@ == self.encoding(),
    ;

    /// Convert bytes to the type
    fn deserialize_from_bytes(bytes: &mut ByteReader) -> (r: Result<Self, ByteDecodeError>)
        ensures
            r matches Ok(v) ==> v.encodable() && old(bytes).rest() == v.encoding() + final(bytes).rest(),
            forall|v: Self, tail: Seq<u8>|
                v.encodable() && old(bytes).rest() == #[trigger] (v.encoding() + tail) ==> r is Ok,
    ;
}

/// Cut a fixed-width encoding off the front of a buffer
pub proof fn lemma_fixed_read(rest: Seq<u8>, x: nat, n: nat)
    requires
        rest.len() >= n,
        x == be_decode(rest.take(n as int)),
    ensures
        x < pow256(n),
        rest == be_encode(x, n) + rest.skip(n as int),
{
    lemma_be_decode_bound(rest.take(n as int));
    lemma_be_encode_decode(rest.take(n as int));
    assert(rest =~= rest.take(n as int) + rest.skip(n as int));
}

impl SerializeToBytes for u8 {
    open spec fn encoding(&self) -> Seq<u8> {
        be_encode(*self as nat, 1)
    }

    open spec fn encodable(&self) -> bool {
        true
    }

    proof fn lemma_prefix_free(a: Self, b: Self, r1: Seq<u8>, r2: Seq<u8>) {
        lemma_pow256_values();
        lemma_fixed_prefix(a as nat, b as nat, 1, r1, r2);
    }

    fn serialize_into_bytes(self) -> (bytes: Vec<u8>) {
        encode_be(self as u128, 1)
    }

    fn deserialize_from_bytes(bytes: &mut ByteReader) -> (r: Result<Self, ByteDecodeError>)
        ensures
            old(bytes).rest().len() < 1 ==> r == Err::<u8, ByteDecodeError>(
                ByteDecodeError::UnexpectedEnd,
            ),
            forall|v: u8, tail: Seq<u8>|
                old(bytes).rest() == #[trigger] (v.encoding() + tail) ==> r == Ok::<
                    u8,
                    ByteDecodeError,
                >(v) && final(bytes).rest() == tail,
    {
        let ghost start = bytes.rest();
        proof {
            broadcast use lemma_be_encode_len;

        }
        let x = read_be(bytes, 1)?;
        proof {
            lemma_pow256_values();
            lemma_fixed_read(start, x as nat, 1);
            assert forall|v: u8, tail: Seq<u8>| start == #[trigger] (v.encoding() + tail) implies x
                == v && bytes.rest() == tail by {
                lemma_fixed_prefix(x as nat, v as nat, 1, start.skip(1), tail);
            }
        }
        Ok(x as u8)
    }
}

impl SerializeToBytes for i8 {
    open spec fn encoding(&self) -> Seq<u8> {
        be_encode((*self as u8) as nat, 1)
    }

    open spec fn encodable(&self) -> bool {
        true
    }

    proof fn lemma_prefix_free(a: Self, b: Self, r1: Seq<u8>, r2: Seq<u8>) {
        lemma_pow256_values();
        lemma_fixed_prefix((a as u8) as nat, (b as u8) as nat, 1, r1, r2);
    }

    fn serialize_into_bytes(self) -> (bytes: Vec<u8>) {
        encode_be((self as u8) as u128, 1)
    }

    fn deserialize_from_bytes(bytes: &mut ByteReader) -> (r: Result<Self, ByteDecodeError>)
        ensures
            old(bytes).rest().len() < 1 ==> r == Err::<i8, ByteDecodeError>(
                ByteDecodeError::UnexpectedEnd,
            ),
            forall|v: i8, tail: Seq<u8>|
                old(bytes).rest() == #[trigger] (v.encoding() + tail) ==> r == Ok::<
                    i8,
                    ByteDecodeError,
                >(v) && final(bytes).rest() == tail,
    {
        let ghost start = bytes.rest();
        proof {
            broadcast use lemma_be_encode_len;

        }
        let x = read_be(bytes, 1)?;
        proof {
            lemma_pow256_values();
            lemma_fixed_read(start, x as nat, 1);
            assert((((x as u8) as i8) as u8) as u128 == x) by (bit_vector)
                requires
                    x < 256,
            ;
            assert forall|v: i8, tail: Seq<u8>| start == #[trigger] (v.encoding() + tail) implies (
            (x as u8) as i8) == v && bytes.rest() == tail by {
                lemma_fixed_prefix(x as nat, (v as u8) as nat, 1, start.skip(1), tail);
                assert(((v as u8) as i8) == v) by (bit_vector);
            }
        }
        Ok((x as u8) as i8)
    }
}

impl SerializeToBytes for u16 {
    open spec fn encoding(&self) -> Seq<u8> {
        be_encode(*self as nat, 2)
    }

    open spec fn encodable(&self) -> bool {
        true
    }

    proof fn lemma_prefix_free(a: Self, b: Self, r1: Seq<u8>, r2: Seq<u8>) {
        lemma_pow256_values();
        lemma_fixed_prefix(a as nat, b as nat, 2, r1, r2);
    }

    fn serialize_into_bytes(self) -> (bytes: Vec<u8>) {
        let bytes = encode_be(self as u128, 2);
        assert(bytes@ == self.encoding());
        assert(self.encodable());
        bytes
    }

    fn deserialize_from_bytes(bytes: &mut ByteReader) -> (r: Result<Self, ByteDecodeError>)
        ensures
            old(bytes).rest().len() < 2 ==> r == Err::<u16, ByteDecodeError>(
                ByteDecodeError::UnexpectedEnd,
            ),
            forall|v: u16, tail: Seq<u8>|
                old(bytes).rest() == #[trigger] (v.encoding() + tail) ==> r == Ok::<
                    u16,
                    ByteDecodeError,
                >(v) && final(bytes).rest() == tail,
    {
        let ghost start = bytes.rest();
        proof {
            broadcast use lemma_be_encode_len;

        }
        let x = read_be(bytes, 2)?;
        proof {
            lemma_pow256_values();
            lemma_fixed_read(start, x as nat, 2);
            assert forall|v: u16, tail: Seq<u8>| start == #[trigger] (v.encoding() + tail) implies x
                == v && bytes.rest() == tail by {
                lemma_fixed_prefix(x as nat, v as nat, 2, start.skip(2), tail);
            }
        }
        Ok(x as u16)
    }
}

impl SerializeToBytes for i32 {
    open spec fn encoding(&self) -> Seq<u8> {
        be_encode((*self as u32) as nat, 4)
    }

    open spec fn encodable(&self) -> bool {
        true
    }

    proof fn lemma_prefix_free(a: Self, b: Self, r1: Seq<u8>, r2: Seq<u8>) {
        lemma_pow256_values();
        lemma_fixed_prefix((a as u32) as nat, (b as u32) as nat, 4, r1, r2);
    }

    fn serialize_into_bytes(self) -> (bytes: Vec<u8>) {
        encode_be((self as u32) as u128, 4)
    }

    fn deserialize_from_bytes(bytes: &mut ByteReader) -> (r: Result<Self, ByteDecodeError>)
        ensures
            old(bytes).rest().len() < 4 ==> r == Err::<i32, ByteDecodeError>(
                ByteDecodeError::UnexpectedEnd,
            ),
            forall|v: i32, tail: Seq<u8>|
                old(bytes).rest() == #[trigger] (v.encoding() + tail) ==> r == Ok::<
                    i32,
                    ByteDecodeError,
                >(v) && final(bytes).rest() == tail,
    {
        let ghost start = bytes.rest();
        proof {
            broadcast use lemma_be_encode_len;

        }
        let x = read_be(bytes, 4)?;
        proof {
            lemma_pow256_values();
            lemma_fixed_read(start, x as nat, 4);
            assert((((x as u32) as i32) as u32) as u128 == x) by (bit_vector)
                requires
                    x < 0x1_0000_0000,
            ;
            assert forall|v: i32, tail: Seq<u8>| start == #[trigger] (v.encoding() + tail) implies (
            (x as u32) as i32) == v && bytes.rest() == tail by {
                lemma_fixed_prefix(x as nat, (v as u32) as nat, 4, start.skip(4), tail);
                assert(((v as u32) as i32) == v) by (bit_vector);
            }
        }
        Ok((x as u32) as i32)
    }
}

impl SerializeToBytes for u64 {
    open spec fn encoding(&self) -> Seq<u8> {
        be_encode(*self as nat, 8)
    }

    open spec fn encodable(&self) -> bool {
        true
    }

    proof fn lemma_prefix_free(a: Self, b: Self, r1: Seq<u8>, r2: Seq<u8>) {
        lemma_pow256_values();
        lemma_fixed_prefix(a as nat, b as nat, 8, r1, r2);
    }

    fn serialize_into_bytes(self) -> (bytes: Vec<u8>) {
        encode_be(self as u128, 8)
    }

    fn deserialize_from_bytes(bytes: &mut ByteReader) -> (r: Result<Self, ByteDecodeError>)
        ensures
            old(bytes).rest().len() < 8 ==> r == Err::<u64, ByteDecodeError>(
                ByteDecodeError::UnexpectedEnd,
            ),
            r matches Ok(v) ==> final(bytes).rest() == old(bytes).rest().skip(8),
            forall|v: u64, tail: Seq<u8>|
                old(bytes).rest() == #[trigger] (v.encoding() + tail) ==> r == Ok::<
                    u64,
                    ByteDecodeError,
                >(v) && final(bytes).rest() == tail,
    {
        let ghost start = bytes.rest();
        proof {
            broadcast use lemma_be_encode_len;

        }
        let x = read_be(bytes, 8)?;
        proof {
            lemma_pow256_values();
            lemma_fixed_read(start, x as nat, 8);
            assert forall|v: u64, tail: Seq<u8>| start == #[trigger] (v.encoding() + tail) implies x
                == v && bytes.rest() == tail by {
                lemma_fixed_prefix(x as nat, v as nat, 8, start.skip(8), tail);
            }
        }
        Ok(x as u64)
    }
}

impl SerializeToBytes for usize {
    open spec fn encoding(&self) -> Seq<u8> {
        be_encode(*self as nat, 8)
    }

    open spec fn encodable(&self) -> bool {
        true
    }

    proof fn lemma_prefix_free(a: Self, b: Self, r1: Seq<u8>, r2: Seq<u8>) {
        lemma_pow256_values();
        lemma_fixed_prefix(a as nat, b as nat, 8, r1, r2);
    }

    fn serialize_into_bytes(self) -> (bytes: Vec<u8>) {
        encode_be(self as u128, 8)
    }

    /// Values beyond the platform's `usize` are reported as malformed data
    fn deserialize_from_bytes(bytes: &mut ByteReader) -> (r: Result<Self, ByteDecodeError>)
        ensures
            old(bytes).rest().len() < 8 ==> r == Err::<usize, ByteDecodeError>(
                ByteDecodeError::UnexpectedEnd,
            ),
            forall|v: usize, tail: Seq<u8>|
                old(bytes).rest() == #[trigger] (v.encoding() + tail) ==> r == Ok::<
                    usize,
                    ByteDecodeError,
                >(v) && final(bytes).rest() == tail,
    {
        let ghost start = bytes.rest();
        proof {
            broadcast use lemma_be_encode_len;

        }
        let x = read_be(bytes, 8)?;
        proof {
            lemma_pow256_values();
            lemma_fixed_read(start, x as nat, 8);
            assert forall|v: usize, tail: Seq<u8>| start == #[trigger] (v.encoding() + tail) implies x
                == v && bytes.rest() == tail by {
                lemma_fixed_prefix(x as nat, v as nat, 8, start.skip(8), tail);
            }
        }
        if x > usize::MAX as u128 {
            return Err(ByteDecodeError::MalformedData(String::from_str("usize value out of range")));
        }
        Ok(x as usize)
    }
}

impl SerializeToBytes for i128 {
    open spec fn encoding(&self) -> Seq<u8> {
        be_encode((*self as u128) as nat, 16)
    }

    open spec fn encodable(&self) -> bool {
        true
    }

    proof fn lemma_prefix_free(a: Self, b: Self, r1: Seq<u8>, r2: Seq<u8>) {
        lemma_pow256_values();
        lemma_fixed_prefix((a as u128) as nat, (b as u128) as nat, 16, r1, r2);
    }

    fn serialize_into_bytes(self) -> (bytes: Vec<u8>) {
        encode_be(self as u128, 16)
    }

    fn deserialize_from_bytes(bytes: &mut ByteReader) -> (r: Result<Self, ByteDecodeError>)
        ensures
            old(bytes).rest().len() < 16 ==> r == Err::<i128, ByteDecodeError>(
                ByteDecodeError::UnexpectedEnd,
            ),
            forall|v: i128, tail: Seq<u8>|
                old(bytes).rest() == #[trigger] (v.encoding() + tail) ==> r == Ok::<
                    i128,
                    ByteDecodeError,
                >(v) && final(bytes).rest() == tail,
    {
        let ghost start = bytes.rest();
        proof {
            broadcast use lemma_be_encode_len;

        }
        let x = read_be(bytes, 16)?;
        proof {
            lemma_pow256_values();
            lemma_fixed_read(start, x as nat, 16);
            assert(((x as i128) as u128) == x) by (bit_vector);
            assert forall|v: i128, tail: Seq<u8>| start == #[trigger] (v.encoding() + tail) implies (
            x as i128) == v && bytes.rest() == tail by {
                lemma_fixed_prefix(x as nat, (v as u128) as nat, 16, start.skip(16), tail);
                assert(((v as u128) as i128) == v) by (bit_vector);
            }
        }
        Ok(x as i128)
    }
}

impl SerializeToBytes for String {
    open spec fn encoding(&self) -> Seq<u8> {
        be_encode(encode_utf8(self@).len(), 8) + encode_utf8(self@)
    }

    open spec fn encodable(&self) -> bool {
        encode_utf8(self@).len() < pow256(8)
    }

    proof fn lemma_prefix_free(a: Self, b: Self, r1: Seq<u8>, r2: Seq<u8>) {
        let ea = encode_utf8(a@);
        let eb = encode_utf8(b@);
        lemma_pow256_values();
        assert(a.encoding() + r1 =~= be_encode(ea.len(), 8) + (ea + r1));
        assert(b.encoding() + r2 =~= be_encode(eb.len(), 8) + (eb + r2));
        lemma_fixed_prefix(ea.len(), eb.len(), 8, ea + r1, eb + r2);
        assert((ea + r1).take(ea.len() as int) =~= ea);
        assert((eb + r2).take(eb.len() as int) =~= eb);
        assert((ea + r1).skip(ea.len() as int) =~= r1);
        assert((eb + r2).skip(eb.len() as int) =~= r2);
    }

    fn serialize_into_bytes(self) -> (bytes: Vec<u8>) {
        let b = self.as_str().as_bytes();
        proof {
            lemma_pow256_values();
        }
        let mut out = encode_be(b.len() as u128, 8);
        out.extend_from_slice(b);
        out
    }

    fn deserialize_from_bytes(bytes: &mut ByteReader) -> (r: Result<Self, ByteDecodeError>)
        ensures
            forall|v: String, tail: Seq<u8>|
                v.encodable() && old(bytes).rest() == #[trigger] (v.encoding() + tail) ==> (r matches Ok(
                    s) && s@ == v@ && final(bytes).rest() == tail),
    {
        let ghost start = bytes.rest();
        proof {
            lemma_pow256_values();
            assert forall|v: String, tail: Seq<u8>| v.encodable() && start == #[trigger] (v.encoding()
                + tail) implies start.len() >= 8 && start.take(8) == be_encode(
                encode_utf8(v@).len(),
                8,
            ) && start.skip(8) == encode_utf8(v@) + tail && be_decode(start.take(8)) == encode_utf8(
                v@,
            ).len() by {
                let e = encode_utf8(v@);
                lemma_be_encode_len(e.len(), 8);
                assert(v.encoding() + tail =~= be_encode(e.len(), 8) + (e + tail));
                lemma_take_encoded(e.len(), 8, e + tail);
            }
        }
        let len = read_be(bytes, 8)?;
        let ghost after_len = bytes.rest();
        let avail = bytes.remaining();
        if len > avail as u128 {
            return Err(ByteDecodeError::UnexpectedEnd);
        }
        let raw = bytes.next_n(len as usize).unwrap();
        proof {
            assert(after_len =~= raw@ + bytes.rest());
            assert forall|v: String, tail: Seq<u8>| v.encodable() && start == #[trigger] (v.encoding()
                + tail) implies raw@ == encode_utf8(v@) && bytes.rest() == tail && valid_utf8(raw@)
                && decode_utf8(raw@) == v@ by {
                assert((encode_utf8(v@) + tail).take(len as int) =~= encode_utf8(v@));
                assert((encode_utf8(v@) + tail).skip(len as int) =~= tail);
                encode_utf8_valid_utf8(v@);
                encode_utf8_decode_utf8(v@);
            }
        }
        match string_from_utf8(raw) {
            Some(s) => {
                proof {
                    decode_utf8_encode_utf8(raw@);
                    lemma_be_decode_bound(start.take(8));
                    lemma_be_encode_decode(start.take(8));
                    assert(start =~= start.take(8) + start.skip(8));
                    assert(start =~= s.encoding() + bytes.rest());
                }
                Ok(s)
            },
            None => Err(ByteDecodeError::MalformedData(String::from_str("Invalid UTF-8"))),
        }
    }
}


/// The concatenated encodings of a sequence of values
pub open spec fn encode_items<T: SerializeToBytes>(items: Seq<T>) -> Seq<u8>
    decreases items.len(),
{
    if items.len() == 0 {
        Seq::empty()
    } else {
        encode_items(items.drop_last()) + items.last().encoding()
    }
}

/// Encoding two sequences one after the other encodes their concatenation
pub proof fn lemma_encode_items_concat<T: SerializeToBytes>(a: Seq<T>, b: Seq<T>)
    ensures
        encode_items(a + b) == encode_items(a) + encode_items(b),
    decreases b.len(),
{
    if b.len() == 0 {
        assert(a + b =~= a);
        assert(encode_items(a) + encode_items(b) =~= encode_items(a));
    } else {
        lemma_encode_items_concat(a, b.drop_last());
        assert((a + b).drop_last() =~= a + b.drop_last());
        assert((a + b).last() == b.last());
        assert(encode_items(a) + encode_items(b) =~= encode_items(a) + encode_items(b.drop_last())
            + b.last().encoding());
    }
}

/// The encoding of a sequence starts with the encoding of its first value
proof fn lemma_encode_items_first<T: SerializeToBytes>(items: Seq<T>)
    requires
        items.len() > 0,
    ensures
        encode_items(items) == items[0].encoding() + encode_items(items.skip(1)),
{
    let first = seq![items[0]];
    reveal_with_fuel(encode_items, 2);
    assert(first.drop_last() =~= Seq::<T>::empty());
    assert(encode_items(first) =~= items[0].encoding());
    assert(first + items.skip(1) =~= items);
    lemma_encode_items_concat(first, items.skip(1));
}

/// Two runs of encodable values of one length that start two equal buffers
/// have equal encodings and leave equal remainders
proof fn lemma_items_prefix_free<T: SerializeToBytes>(
    a: Seq<T>,
    b: Seq<T>,
    r1: Seq<u8>,
    r2: Seq<u8>,
)
    requires
        a.len() == b.len(),
        forall|i: int| 0 <= i < a.len() ==> #[trigger] a[i].encodable(),
        forall|i: int| 0 <= i < b.len() ==> #[trigger] b[i].encodable(),
        encode_items(a) + r1 == encode_items(b) + r2,
    ensures
        encode_items(a) == encode_items(b),
        r1 == r2,
    decreases a.len(),
{
    if a.len() == 0 {
        assert(encode_items(a) + r1 =~= r1);
        assert(encode_items(b) + r2 =~= r2);
    } else {
        lemma_encode_items_first(a);
        lemma_encode_items_first(b);
        let ta = encode_items(a.skip(1));
        let tb = encode_items(b.skip(1));
        assert(encode_items(a) + r1 =~= a[0].encoding() + (ta + r1));
        assert(encode_items(b) + r2 =~= b[0].encoding() + (tb + r2));
        assert(a[0].encodable());
        assert(b[0].encodable());
        T::lemma_prefix_free(a[0], b[0], ta + r1, tb + r2);
        assert forall|i: int| 0 <= i < a.skip(1).len() implies #[trigger] a.skip(1)[i].encodable() by {
            assert(a.skip(1)[i] == a[i + 1]);
        }
        assert forall|i: int| 0 <= i < b.skip(1).len() implies #[trigger] b.skip(1)[i].encodable() by {
            assert(b.skip(1)[i] == b[i + 1]);
        }
        lemma_items_prefix_free(a.skip(1), b.skip(1), r1, r2);
    }
}

impl<T: SerializeToBytes> SerializeToBytes for Vec<T> {
    open spec fn encoding(&self) -> Seq<u8> {
        be_encode(self@.len(), 8) + encode_items(self@)
    }

    open spec fn encodable(&self) -> bool {
        &&& self@.len() < pow256(8)
        &&& forall|i: int| 0 <= i < self@.len() ==> #[trigger] self@[i].encodable()
    }

    proof fn lemma_prefix_free(a: Self, b: Self, r1: Seq<u8>, r2: Seq<u8>) {
        lemma_pow256_values();
        assert(a.encoding() + r1 =~= be_encode(a@.len(), 8) + (encode_items(a@) + r1));
        assert(b.encoding() + r2 =~= be_encode(b@.len(), 8) + (encode_items(b@) + r2));
        lemma_fixed_prefix(a@.len(), b@.len(), 8, encode_items(a@) + r1, encode_items(b@) + r2);
        lemma_items_prefix_free(a@, b@, r1, r2);
    }

    fn serialize_into_bytes(self) -> (bytes: Vec<u8>) {
        proof {
            lemma_pow256_values();
        }
        let ghost items = self@;
        let mut bytes = encode_be(self.len() as u128, 8);
        for x in it: self
            invariant
                it.seq() == items,
                bytes@ == be_encode(items.len(), 8) + encode_items(items.take(it.index())),
                forall|i: int| 0 <= i < it.index() ==> #[trigger] items[i].encodable(),
        {
            let ghost k = it.index();
            let enc = x.serialize_into_bytes();
            bytes.extend_from_slice(enc.as_slice());
            proof {
                assert(items.take(k + 1).drop_last() =~= items.take(k));
            }
        }
        assert(items.take(items.len() as int) =~= items);
        bytes
    }

    fn deserialize_from_bytes(bytes: &mut ByteReader) -> (r: Result<Self, ByteDecodeError>) {
        let ghost start = bytes.rest();
        proof {
            lemma_pow256_values();
            assert forall|v: Vec<T>, tail: Seq<u8>| v.encodable() && start == #[trigger] (v.encoding()
                + tail) implies start.len() >= 8 && be_decode(start.take(8)) == v@.len()
                && start.skip(8) == encode_items(v@) + tail by {
                lemma_be_encode_len(v@.len(), 8);
                assert(v.encoding() + tail =~= be_encode(v@.len(), 8) + (encode_items(v@) + tail));
                lemma_take_encoded(v@.len(), 8, encode_items(v@) + tail);
            }
        }
        let len = read_be(bytes, 8)?;
        let ghost after_len = bytes.rest();
        let mut items: Vec<T> = Vec::new();
        let mut i: u128 = 0;
        proof {
            lemma_be_decode_bound(start.take(8));
            assert forall|v: Vec<T>, tail: Seq<u8>| v.encodable() && start == #[trigger] (v.encoding()
                + tail) implies encode_items(v@.take(0)) == encode_items(items@) && bytes.rest()
                == encode_items(v@.skip(0)) + tail by {
                assert(v@.take(0) =~= items@);
                assert(v@.skip(0) =~= v@);
            }
            assert(after_len =~= encode_items(items@) + bytes.rest());
        }
        while i < len
            invariant
                i <= len,
                start == old(bytes).rest(),
                len < pow256(8),
                items@.len() == i,
                forall|k: int| 0 <= k < items@.len() ==> #[trigger] items@[k].encodable(),
                after_len == encode_items(items@) + bytes.rest(),
                forall|v: Vec<T>, tail: Seq<u8>|
                    v.encodable() && start == #[trigger] (v.encoding() + tail) ==> v@.len() == len
                        && after_len == encode_items(v@) + tail,
                forall|v: Vec<T>, tail: Seq<u8>|
                    v.encodable() && start == #[trigger] (v.encoding() + tail) ==> encode_items(
                        v@.take(i as int),
                    ) == encode_items(items@) && bytes.rest() == encode_items(v@.skip(i as int))
                        + tail,
            decreases len - i,
        {
            let ghost before = bytes.rest();
            proof {
                assert forall|v: Vec<T>, tail: Seq<u8>| v.encodable() && start == #[trigger] (
                v.encoding() + tail) implies before == v@[i as int].encoding() + (encode_items(
                    v@.skip(i + 1),
                ) + tail) by {
                    lemma_encode_items_first(v@.skip(i as int));
                    assert(v@.skip(i as int).skip(1) =~= v@.skip(i + 1));
                    assert(v@.skip(i as int)[0] == v@[i as int]);
                }
            }
            let x = match T::deserialize_from_bytes(bytes) {
                Ok(x) => x,
                Err(e) => {
                    proof {
                        assert forall|v: Vec<T>, tail: Seq<u8>| v.encodable() && start
                            == #[trigger] (v.encoding() + tail) implies false by {
                            let item = v@[i as int];
                            assert(item.encodable());
                            assert(before == item.encoding() + (encode_items(v@.skip(i + 1))
                                + tail));
                        }
                    }
                    return Err(e);
                },
            };
            proof {
                assert forall|v: Vec<T>, tail: Seq<u8>| v.encodable() && start == #[trigger] (
                v.encoding() + tail) implies encode_items(v@.take(i + 1)) == encode_items(
                    items@.push(x),
                ) && bytes.rest() == encode_items(v@.skip(i + 1)) + tail by {
                    assert(v@[i as int].encodable());
                    T::lemma_prefix_free(
                        x,
                        v@[i as int],
                        bytes.rest(),
                        encode_items(v@.skip(i + 1)) + tail,
                    );
                    assert(v@.take(i + 1).drop_last() =~= v@.take(i as int));
                    assert(items@.push(x).drop_last() =~= items@);
                }
                assert(items@.push(x).drop_last() =~= items@);
                assert(after_len =~= encode_items(items@.push(x)) + bytes.rest());
            }
            items.push(x);
            i = i + 1;
        }
        proof {
            lemma_be_decode_bound(start.take(8));
            lemma_be_encode_decode(start.take(8));
            assert(start =~= start.take(8) + start.skip(8));
            assert(start =~= items.encoding() + bytes.rest());
            assert forall|v: Vec<T>, tail: Seq<u8>| v.encodable() && start == #[trigger] (v.encoding()
                + tail) implies true by {
                assert(v@.take(len as int) =~= v@);
            }
        }
        Ok(items)
    }
}

impl<T: SerializeToBytes> SerializeToBytes for Option<T> {
    open spec fn encoding(&self) -> Seq<u8> {
        match self {
            Some(v) => seq![1u8] + v.encoding(),
            None => seq![0u8],
        }
    }

    open spec fn encodable(&self) -> bool {
        match self {
            Some(v) => v.encodable(),
            None => true,
        }
    }

    proof fn lemma_prefix_free(a: Self, b: Self, r1: Seq<u8>, r2: Seq<u8>) {
        assert((a.encoding() + r1)[0] == a.encoding()[0]);
        assert((b.encoding() + r2)[0] == b.encoding()[0]);
        match a {
            Some(x) => {
                let y = b->0;
                assert(a.encoding() + r1 =~= seq![1u8] + (x.encoding() + r1));
                assert(b.encoding() + r2 =~= seq![1u8] + (y.encoding() + r2));
                assert((a.encoding() + r1).skip(1) =~= x.encoding() + r1);
                assert((b.encoding() + r2).skip(1) =~= y.encoding() + r2);
                T::lemma_prefix_free(x, y, r1, r2);
            },
            None => {
                assert((a.encoding() + r1).skip(1) =~= r1);
                assert((b.encoding() + r2).skip(1) =~= r2);
            },
        }
    }

    fn serialize_into_bytes(self) -> (bytes: Vec<u8>) {
        match self {
            Some(value) => {
                let mut bytes = Vec::new();
                bytes.push(1u8);
                let enc = value.serialize_into_bytes();
                bytes.extend_from_slice(enc.as_slice());
                assert(bytes@ =~= seq![1u8] + value.encoding());
                bytes
            },
            None => {
                let bytes = vec![0u8];
                assert(bytes@ =~= seq![0u8]);
                bytes
            },
        }
    }

    /// A tag other than `0` or `1`, or no tag at all, is malformed data
    fn deserialize_from_bytes(bytes: &mut ByteReader) -> (r: Result<Self, ByteDecodeError>)
        ensures
            old(bytes).rest().len() == 0 || (old(bytes).rest()[0] != 0 && old(bytes).rest()[0]
                != 1) ==> r is Err,
    {
        let ghost start = bytes.rest();
        match bytes.next() {
            Some(0u8) => {
                assert(start =~= seq![0u8] + bytes.rest());
                proof {
                    assert forall|v: Option<T>, tail: Seq<u8>| v.encodable() && start
                        == #[trigger] (v.encoding() + tail) implies v is None by {
                        assert((v.encoding() + tail)[0] == v.encoding()[0]);
                    }
                }
                Ok(None)
            },
            Some(1u8) => {
                proof {
                    assert forall|v: Option<T>, tail: Seq<u8>| v.encodable() && start
                        == #[trigger] (v.encoding() + tail) implies v is Some && bytes.rest()
                        == v->0.encoding() + tail by {
                        assert((v.encoding() + tail)[0] == v.encoding()[0]);
                        assert((v.encoding() + tail).drop_first() =~= v->0.encoding() + tail);
                    }
                }
                let ghost mid = bytes.rest();
                assert(start =~= seq![1u8] + mid);
                let value = T::deserialize_from_bytes(bytes)?;
                assert(start =~= seq![1u8] + value.encoding() + bytes.rest());
                Ok(Some(value))
            },
            _ => {
                proof {
                    assert forall|v: Option<T>, tail: Seq<u8>| v.encodable() && start
                        == #[trigger] (v.encoding() + tail) implies false by {
                        assert((v.encoding() + tail)[0] == v.encoding()[0]);
                    }
                }
                Err(ByteDecodeError::MalformedData(String::from_str("Invalid Option")))
            },
        }
    }
}

/// A pair is the encoding of its first part followed by that of its second
impl<A: SerializeToBytes, B: SerializeToBytes> SerializeToBytes for (A, B) {
    open spec fn encoding(&self) -> Seq<u8> {
        self.0.encoding() + self.1.encoding()
    }

    open spec fn encodable(&self) -> bool {
        self.0.encodable() && self.1.encodable()
    }

    proof fn lemma_prefix_free(a: Self, b: Self, r1: Seq<u8>, r2: Seq<u8>) {
        assert(a.encoding() + r1 =~= a.0.encoding() + (a.1.encoding() + r1));
        assert(b.encoding() + r2 =~= b.0.encoding() + (b.1.encoding() + r2));
        A::lemma_prefix_free(a.0, b.0, a.1.encoding() + r1, b.1.encoding() + r2);
        B::lemma_prefix_free(a.1, b.1, r1, r2);
    }

    fn serialize_into_bytes(self) -> (bytes: Vec<u8>) {
        let (x, y) = self;
        let mut bytes = x.serialize_into_bytes();
        let enc = y.serialize_into_bytes();
        bytes.extend_from_slice(enc.as_slice());
        bytes
    }

    fn deserialize_from_bytes(bytes: &mut ByteReader) -> (r: Result<Self, ByteDecodeError>) {
        let ghost start = bytes.rest();
        proof {
            assert forall|v: (A, B), tail: Seq<u8>| v.encodable() && start == #[trigger] (v.encoding()
                + tail) implies start == v.0.encoding() + (v.1.encoding() + tail) by {
                assert(v.encoding() + tail =~= v.0.encoding() + (v.1.encoding() + tail));
            }
        }
        let x = match A::deserialize_from_bytes(bytes) {
            Ok(x) => x,
            Err(e) => {
                proof {
                    assert forall|v: (A, B), tail: Seq<u8>| v.encodable() && start == #[trigger] (
                    v.encoding() + tail) implies false by {
                        assert(start == v.0.encoding() + (v.1.encoding() + tail));
                    }
                }
                return Err(e);
            },
        };
        let ghost mid = bytes.rest();
        proof {
            assert forall|v: (A, B), tail: Seq<u8>| v.encodable() && start == #[trigger] (v.encoding()
                + tail) implies mid == v.1.encoding() + tail by {
                assert(start == v.0.encoding() + (v.1.encoding() + tail));
                A::lemma_prefix_free(x, v.0, mid, v.1.encoding() + tail);
            }
        }
        let y = match B::deserialize_from_bytes(bytes) {
            Ok(y) => y,
            Err(e) => {
                proof {
                    assert forall|v: (A, B), tail: Seq<u8>| v.encodable() && start == #[trigger] (
                    v.encoding() + tail) implies false by {
                        assert(mid == v.1.encoding() + tail);
                    }
                }
                return Err(e);
            },
        };
        assert(start =~= x.encoding() + y.encoding() + bytes.rest());
        Ok((x, y))
    }
}

} // verus!
