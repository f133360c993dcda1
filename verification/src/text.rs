//! Conversions between strings and character sequences, and the decimal
//! rendering of numbers, shared by the lexer, the error messages and the
//! compiler.
use vstd::prelude::*;
use vstd::utf8::*;

verus! {

/// Wraps `String::from_iter` over characters. Its documentation: the string
/// holds the given characters, in order.
#[verifier::external_body]
pub(crate) fn string_from_chars(chars: &[char]) -> (s: String)
    ensures
        s@ == chars@,
{
    chars.iter().collect::<String>()
}

/// The characters of a string, in order
pub fn chars_of(s: &str) -> (v: Vec<char>)
    ensures
        v@ == s@,
{
    let mut v: Vec<char> = Vec::new();
    for c in it: s.chars()
        invariant
            v@ == it.seq().take(it.index()),
            it.seq() == s@,
    {
        let ghost k = it.index();
        v.push(c);
        assert(it.seq().take(k + 1) =~= it.seq().take(k).push(c));
    }
    assert(s@.take(s@.len() as int) =~= s@);
    v
}

/// The decimal digits of `n`, most significant first
pub open spec fn decimal(n: nat) -> Seq<char>
    decreases n,
{
    if n < 10 {
        seq![digit_char(n)]
    } else {
        decimal(n / 10).push(digit_char(n % 10))
    }
}

/// The character of a decimal digit
pub open spec fn digit_char(d: nat) -> char {
    if d == 0 { '0' }
    else if d == 1 { '1' }
    else if d == 2 { '2' }
    else if d == 3 { '3' }
    else if d == 4 { '4' }
    else if d == 5 { '5' }
    else if d == 6 { '6' }
    else if d == 7 { '7' }
    else if d == 8 { '8' }
    else { '9' }
}

pub(crate) fn digit(d: u64) -> (c: char)
    requires
        d < 10,
    ensures
        c == digit_char(d as nat),
{
    match d {
        0 => '0',
        1 => '1',
        2 => '2',
        3 => '3',
        4 => '4',
        5 => '5',
        6 => '6',
        7 => '7',
        8 => '8',
        _ => '9',
    }
}

/// Append the decimal digits of `n` to `out`
pub fn push_decimal(n: u64, out: &mut Vec<char>)
    ensures
        final(out)@ == old(out)@ + decimal(n as nat),
    decreases n,
{
    if n < 10 {
        out.push(digit(n));
    } else {
        push_decimal(n / 10, out);
        out.push(digit(n % 10));
    }
    assert(final(out)@ =~= old(out)@ + decimal(n as nat));
}

/// The decimal rendering of `n`
pub fn decimal_string(n: u64) -> (s: String)
    ensures
        s@ == decimal(n as nat),
{
    let mut v: Vec<char> = Vec::new();
    push_decimal(n, &mut v);
    assert(v@ =~= decimal(n as nat));
    string_from_chars(v.as_slice())
}

} // verus!

verus! {

/// The two strings hold the same characters
pub fn str_eq(a: &str, b: &str) -> (r: bool)
    ensures
        r == (a@ == b@),
{
    String::from_str(a) == String::from_str(b)
}

} // verus!

verus! {

/// Append the decimal digits of `n`
pub fn push_decimal_u128(n: u128, out: &mut Vec<char>)
    ensures
        final(out)@ == old(out)@ + decimal(n as nat),
    decreases n,
{
    if n < 10 {
        out.push(digit(n as u64));
    } else {
        push_decimal_u128(n / 10, out);
        out.push(digit((n % 10) as u64));
    }
    assert(final(out)@ =~= old(out)@ + decimal(n as nat));
}

/// The decimal text of an integer: a minus sign for a negative one, then the
/// digits of its magnitude
pub open spec fn int_text(i: int) -> Seq<char> {
    if i < 0 {
        seq!['-'] + decimal((-i) as nat)
    } else {
        decimal(i as nat)
    }
}

/// The decimal text of an integer
pub fn i128_string(i: i128) -> (s: String)
    ensures
        s@ == int_text(i as int),
{
    let mut v: Vec<char> = Vec::new();
    let mag: u128 = if i < 0 {
        v.push('-');
        if i == i128::MIN {
            170141183460469231731687303715884105728u128
        } else {
            (-i) as u128
        }
    } else {
        i as u128
    };
    push_decimal_u128(mag, &mut v);
    assert(v@ =~= int_text(i as int));
    string_from_chars(v.as_slice())
}

/// The text `a` comes before `b`: at the first position where they differ
/// its character is smaller, or it is a proper prefix of `b`
pub open spec fn text_lt(a: Seq<char>, b: Seq<char>) -> bool
    decreases a.len(),
{
    if a.len() == 0 {
        b.len() > 0
    } else if b.len() == 0 {
        false
    } else if a[0] != b[0] {
        (a[0] as u32) < (b[0] as u32)
    } else {
        text_lt(a.skip(1), b.skip(1))
    }
}

/// Texts are totally ordered: exactly one of `a` before `b`, `a` equal to
/// `b`, `b` before `a`
pub proof fn lemma_text_order(a: Seq<char>, b: Seq<char>)
    ensures
        text_lt(a, b) || a == b || text_lt(b, a),
        !(text_lt(a, b) && text_lt(b, a)),
        !(text_lt(a, b) && a == b),
    decreases a.len(),
{
    if a.len() > 0 && b.len() > 0 && a[0] == b[0] {
        lemma_text_order(a.skip(1), b.skip(1));
        assert(text_lt(a, b) == text_lt(a.skip(1), b.skip(1)));
        assert(text_lt(b, a) == text_lt(b.skip(1), a.skip(1)));
        if a.skip(1) == b.skip(1) {
            assert(a =~= seq![a[0]] + a.skip(1));
            assert(b =~= seq![b[0]] + b.skip(1));
        } else {
            assert(a != b) by {
                if a == b {
                    assert(a.skip(1) =~= b.skip(1));
                }
            }
        }
    } else if a.len() > 0 && b.len() > 0 {
        assert(a != b) by {
            assert(a[0] != b[0]);
        }
        char_u32_cast(a[0], a[0] as u32);
        char_u32_cast(b[0], b[0] as u32);
    } else if a.len() == 0 && b.len() == 0 {
        assert(a =~= b);
    }
}

/// Whether the text `a` comes before `b`
pub fn text_less(a: &Vec<char>, b: &Vec<char>) -> (r: bool)
    ensures
        r == text_lt(a@, b@),
{
    let mut i: usize = 0;
    assert(a@.skip(0) =~= a@);
    assert(b@.skip(0) =~= b@);
    while i < a.len() && i < b.len() && a[i] == b[i]
        invariant
            i <= a@.len(),
            i <= b@.len(),
            text_lt(a@, b@) == text_lt(a@.skip(i as int), b@.skip(i as int)),
        decreases a@.len() - i,
    {
        assert(a@.skip(i as int).skip(1) =~= a@.skip(i + 1));
        assert(b@.skip(i as int).skip(1) =~= b@.skip(i + 1));
        i = i + 1;
    }
    if i == a.len() {
        i < b.len()
    } else if i == b.len() {
        false
    } else {
        (a[i] as u32) < (b[i] as u32)
    }
}

/// Wraps `String::from_utf8`. Its documentation: the bytes become a `String`
/// exactly when they are valid UTF-8, and the text is what they encode.
#[verifier::external_body]
pub(crate) fn string_from_utf8(bytes: Vec<u8>) -> (r: Option<String>)
    ensures
        r is Some <==> valid_utf8(bytes@),
        r matches Some(s) ==> s@ == decode_utf8(bytes@),
{
    String::from_utf8(bytes).ok()
}

/// The bytes between two character boundaries of valid UTF-8 are valid UTF-8
pub proof fn lemma_valid_between(b: Seq<u8>, s: int, e: int)
    requires
        valid_utf8(b),
        0 <= s <= e <= b.len(),
        is_char_boundary(b, s),
        is_char_boundary(b, e),
    ensures
        valid_utf8(b.subrange(s, e)),
{
    valid_utf8_split(b, s);
    let suf = b.subrange(s, b.len() as int);
    if e == b.len() {
        is_char_boundary_start_end_of_seq(suf);
        assert(suf.len() == e - s);
    } else {
        is_char_boundary_iff_not_is_continuation_byte(b, e);
        assert(suf[e - s] == b[e]);
        is_char_boundary_iff_not_is_continuation_byte(suf, e - s);
    }
    valid_utf8_split(suf, e - s);
    assert(suf.subrange(0, e - s) =~= b.subrange(s, e));
}

/// The bytes of a text
pub open spec fn utf8_of(s: Seq<char>) -> Seq<u8> {
    encode_utf8(s)
}

/// The text whose UTF-8 bytes are those of `s` from byte `start` to byte
/// `end`, both character boundaries
pub fn byte_substring(s: &str, start: usize, end: usize) -> (t: String)
    requires
        start <= end <= utf8_of(s@).len(),
        is_char_boundary(utf8_of(s@), start as int),
        is_char_boundary(utf8_of(s@), end as int),
    ensures
        utf8_of(t@) == utf8_of(s@).subrange(start as int, end as int),
{
    let all = s.as_bytes_vec();
    let ghost b = utf8_of(s@);
    let mut v: Vec<u8> = Vec::new();
    let mut i = start;
    while i < end
        invariant
            start <= i <= end,
            end <= b.len(),
            all@ == b,
            v@ == b.subrange(start as int, i as int),
        decreases end - i,
    {
        v.push(all[i]);
        i = i + 1;
        assert(v@ =~= b.subrange(start as int, i as int));
    }
    proof {
        encode_utf8_valid_utf8(s@);
        lemma_valid_between(b, start as int, end as int);
        decode_utf8_encode_utf8(v@);
    }
    string_from_utf8(v).unwrap()
}

/// The text whose UTF-8 bytes are those of `s` with the byte at `at`, a
/// character of its own, replaced by the bytes of `with`
pub fn byte_splice(s: &str, at: usize, with: &str) -> (t: String)
    requires
        at < utf8_of(s@).len(),
        is_char_boundary(utf8_of(s@), at as int),
        is_char_boundary(utf8_of(s@), at + 1),
    ensures
        utf8_of(t@) == utf8_of(s@).subrange(0, at as int) + utf8_of(with@) + utf8_of(s@).subrange(
            at + 1,
            utf8_of(s@).len() as int,
        ),
{
    let all = s.as_bytes_vec();
    let mid = with.as_bytes_vec();
    let ghost b = utf8_of(s@);
    let n = all.len();
    let mut v: Vec<u8> = Vec::new();
    let mut i: usize = 0;
    while i < at
        invariant
            i <= at < b.len(),
            all@ == b,
            v@ == b.subrange(0, i as int),
        decreases at - i,
    {
        v.push(all[i]);
        i = i + 1;
        assert(v@ =~= b.subrange(0, i as int));
    }
    let mut k: usize = 0;
    while k < mid.len()
        invariant
            k <= mid@.len(),
            v@ == b.subrange(0, at as int) + mid@.subrange(0, k as int),
        decreases mid@.len() - k,
    {
        v.push(mid[k]);
        k = k + 1;
        assert(v@ =~= b.subrange(0, at as int) + mid@.subrange(0, k as int));
    }
    assert(mid@.subrange(0, mid@.len() as int) =~= mid@);
    let mut j: usize = at + 1;
    while j < n
        invariant
            at + 1 <= j <= n,
            n == b.len(),
            all@ == b,
            v@ == b.subrange(0, at as int) + mid@ + b.subrange(at + 1, j as int),
        decreases n - j,
    {
        v.push(all[j]);
        j = j + 1;
        assert(v@ =~= b.subrange(0, at as int) + mid@ + b.subrange(at + 1, j as int));
    }
    proof {
        encode_utf8_valid_utf8(s@);
        encode_utf8_valid_utf8(with@);
        is_char_boundary_start_end_of_seq(b);
        lemma_valid_between(b, 0, at as int);
        lemma_valid_between(b, at + 1, b.len() as int);
        valid_utf8_concat(b.subrange(0, at as int), mid@);
        valid_utf8_concat(b.subrange(0, at as int) + mid@, b.subrange(at + 1, b.len() as int));
        decode_utf8_encode_utf8(v@);
    }
    string_from_utf8(v).unwrap()
}

/// The text whose UTF-8 bytes are those of `s` without the bytes from
/// `start` to `end`, both character boundaries
pub fn byte_cut(s: &str, start: usize, end: usize) -> (t: String)
    requires
        start <= end <= utf8_of(s@).len(),
        is_char_boundary(utf8_of(s@), start as int),
        is_char_boundary(utf8_of(s@), end as int),
    ensures
        utf8_of(t@) == utf8_of(s@).subrange(0, start as int) + utf8_of(s@).subrange(
            end as int,
            utf8_of(s@).len() as int,
        ),
{
    let all = s.as_bytes_vec();
    let ghost b = utf8_of(s@);
    let n = all.len();
    let mut v: Vec<u8> = Vec::new();
    let mut i: usize = 0;
    while i < start
        invariant
            i <= start <= end <= b.len(),
            all@ == b,
            v@ == b.subrange(0, i as int),
        decreases start - i,
    {
        v.push(all[i]);
        i = i + 1;
        assert(v@ =~= b.subrange(0, i as int));
    }
    let mut j: usize = end;
    while j < n
        invariant
            end <= j <= n,
            n == b.len(),
            all@ == b,
            v@ == b.subrange(0, start as int) + b.subrange(end as int, j as int),
        decreases n - j,
    {
        v.push(all[j]);
        j = j + 1;
        assert(v@ =~= b.subrange(0, start as int) + b.subrange(end as int, j as int));
    }
    proof {
        encode_utf8_valid_utf8(s@);
        is_char_boundary_start_end_of_seq(b);
        lemma_valid_between(b, 0, start as int);
        lemma_valid_between(b, end as int, b.len() as int);
        valid_utf8_concat(b.subrange(0, start as int), b.subrange(end as int, b.len() as int));
        decode_utf8_encode_utf8(v@);
    }
    string_from_utf8(v).unwrap()
}

} // verus!
