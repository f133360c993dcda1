//! Literal parsing functions: values from the text of literal tokens.
use crate::text::{chars_of, string_from_chars};
use crate::value::number::{decimal_parse, fp_parse, Decimal};
use vstd::prelude::*;

verus! {

/// Error occurred while parsing a literal
#[derive(Debug, Clone, Copy, PartialEq, Eq, Structural)]
pub enum LiteralError {
    /// Invalid float literal
    InvalidFloatLiteral,
    /// Invalid base for radix literal
    InvalidRadixLiteral(char),
    /// Invalid integer literal
    InvalidIntLiteral,
    /// Invalid currency literal
    InvalidCurrencyLiteral,
    /// Invalid escape sequence in a string
    InvalidEscapeSequence(char),
}

/// The value of a digit character in bases up to 36: `0-9`, then `a-z` or
/// `A-Z` from 10 on
pub open spec fn digit_value(c: char) -> int {
    if '0' <= c <= '9' {
        c as int - '0' as int
    } else if 'a' <= c <= 'z' {
        c as int - 'a' as int + 10
    } else if 'A' <= c <= 'Z' {
        c as int - 'A' as int + 10
    } else {
        99
    }
}

/// Every character is a digit of `base`
pub open spec fn all_digits(s: Seq<char>, base: int) -> bool {
    forall|i: int| 0 <= i < s.len() ==> #[trigger] digit_value(s[i]) < base
}

/// The value of digits in `base`, most significant first
pub open spec fn digits_value(s: Seq<char>, base: int) -> int
    decreases s.len(),
{
    if s.len() == 0 {
        0
    } else {
        digits_value(s.drop_last(), base) * base + digit_value(s.last())
    }
}

/// What parsing `s` as a number in `base` gives: an optional `+` (or `-` when
/// `signed`), then at least one digit; `None` when that fails or the value does
/// not lie within `min..=max`
pub open spec fn parse_radix(s: Seq<char>, base: int, signed: bool, min: int, max: int) -> Option<int> {
    let (neg, digits) = if signed && s.len() > 0 && s[0] == '-' {
        (true, s.skip(1))
    } else if s.len() > 0 && s[0] == '+' {
        (false, s.skip(1))
    } else {
        (false, s)
    };
    let v = if neg {
        -digits_value(digits, base)
    } else {
        digits_value(digits, base)
    };
    if digits.len() > 0 && all_digits(digits, base) && min <= v <= max {
        Some(v)
    } else {
        None
    }
}

/// The text without its underscores
pub open spec fn without_underscores(s: Seq<char>) -> Seq<char> {
    s.filter(|c: char| c != '_')
}

fn digit_of(c: char) -> (d: u32)
    ensures
        d == digit_value(c),
{
    if '0' <= c && c <= '9' {
        (c as u32) - ('0' as u32)
    } else if 'a' <= c && c <= 'z' {
        (c as u32) - ('a' as u32) + 10
    } else if 'A' <= c && c <= 'Z' {
        (c as u32) - ('A' as u32) + 10
    } else {
        99
    }
}

proof fn lemma_digits_value_nonneg(s: Seq<char>, base: int)
    requires
        all_digits(s, base),
        base >= 2,
    ensures
        digits_value(s, base) >= 0,
    decreases s.len(),
{
    if s.len() > 0 {
        assert(digit_value(s.last()) >= 0);
        assert(all_digits(s.drop_last(), base)) by {
            assert forall|i: int| 0 <= i < s.drop_last().len() implies #[trigger] digit_value(
                s.drop_last()[i],
            ) < base by {
                assert(s.drop_last()[i] == s[i]);
            }
        }
        lemma_digits_value_nonneg(s.drop_last(), base);
        assert(digits_value(s.drop_last(), base) * base >= 0) by (nonlinear_arith)
            requires
                digits_value(s.drop_last(), base) >= 0,
                base >= 2,
        ;
    }
}

/// Growing digits never lower the value once it passes a bound
proof fn lemma_digits_value_monotone(s: Seq<char>, k: int, base: int)
    requires
        all_digits(s, base),
        base >= 2,
        0 <= k <= s.len(),
    ensures
        digits_value(s.take(k), base) <= digits_value(s, base),
    decreases s.len() - k,
{
    if k < s.len() {
        lemma_digits_value_monotone(s, k + 1, base);
        let t = s.take(k + 1);
        assert(t.drop_last() =~= s.take(k));
        assert(all_digits(s.take(k), base)) by {
            assert forall|i: int| 0 <= i < s.take(k).len() implies #[trigger] digit_value(
                s.take(k)[i],
            ) < base by {
                assert(s.take(k)[i] == s[i]);
            }
        }
        lemma_digits_value_nonneg(s.take(k), base);
        assert(digit_value(t.last()) >= 0) by {
            assert(t.last() == s[k]);
        }
        let v = digits_value(s.take(k), base);
        assert(v <= v * base) by (nonlinear_arith)
            requires
                v >= 0,
                base >= 2,
        ;
    } else {
        assert(s.take(k) =~= s);
    }
}

/// Once a prefix of the digits is past `bound`, the whole of them is too
proof fn lemma_prefix_exceeds(digits: Seq<char>, k: int, base: int, bound: int)
    requires
        base >= 2,
        0 <= k <= digits.len(),
        digits_value(digits.take(k), base) > bound,
        all_digits(digits, base),
    ensures
        digits_value(digits, base) > bound,
{
    lemma_digits_value_monotone(digits, k, base);
}

/// One more digit: the value is the old one times the base, plus the digit
proof fn lemma_digits_step(digits: Seq<char>, k: int, base: int)
    requires
        0 <= k < digits.len(),
    ensures
        digits_value(digits.take(k + 1), base) == digits_value(digits.take(k), base) * base
            + digit_value(digits[k]),
{
    assert(digits.take(k + 1).drop_last() =~= digits.take(k));
    assert(digits.take(k + 1).last() == digits[k]);
}

/// Parse digits with an optional sign in `base`, within the range of `i128`
fn parse_i128(s: &Vec<char>, base: u32) -> (r: Option<i128>)
    requires
        2 <= base <= 36,
    ensures
        r matches Some(v) ==> parse_radix(s@, base as int, true, i128::MIN as int, i128::MAX as int) == Some(v as int),
        r is None ==> parse_radix(s@, base as int, true, i128::MIN as int, i128::MAX as int) is None,
{
    let (neg, first) = if s.len() > 0 && s[0] == '-' {
        (true, 1usize)
    } else if s.len() > 0 && s[0] == '+' {
        (false, 1usize)
    } else {
        (false, 0usize)
    };
    let ghost digits = s@.skip(first as int);
    proof {
        assert(s@.skip(0) =~= s@);
    }
    if first >= s.len() {
        assert(digits.len() == 0);
        return None;
    }
    // The magnitude is accumulated as a negative number, which reaches i128::MIN
    let mut acc: i128 = 0;
    let mut i = first;
    proof {
        assert(digits.take(0) =~= Seq::<char>::empty());
    }
    while i < s.len()
        invariant
            first <= i <= s@.len(),
            first == (if s@.len() > 0 && (s@[0] == '-' || s@[0] == '+') { 1usize } else { 0usize }),
            neg == (s@.len() > 0 && s@[0] == '-'),
            digits == s@.skip(first as int),
            first == 0 ==> digits == s@,
            2 <= base <= 36,
            all_digits(digits.take(i - first), base as int),
            acc == -digits_value(digits.take(i - first), base as int),
        decreases s@.len() - i,
    {
        let d = digit_of(s[i]);
        let ghost k = i - first;
        let ghost prev = digits_value(digits.take(k), base as int);
        proof {
            assert(digits[k] == s@[i as int]);
            lemma_digits_step(digits, k, base as int);
        }
        if d >= base {
            proof {
                assert(digit_value(digits[k]) >= base);
            }
            return None;
        }
        let ghost next_value = digits_value(digits.take(k + 1), base as int);
        proof {
            let t = digits.take(k + 1);
            assert forall|j: int| 0 <= j < t.len() implies #[trigger] digit_value(t[j]) < base by {
                if j < k {
                    assert(t[j] == digits.take(k)[j]);
                }
            }
            assert(acc * (base as int) == -(prev * base)) by (nonlinear_arith)
                requires
                    acc == -prev,
            ;
            lemma_digits_value_nonneg(digits.take(k), base as int);
        }
        let next = match acc.checked_mul(base as i128) {
            Some(m) => m.checked_sub(d as i128),
            None => None,
        };
        match next {
            Some(n) => {
                acc = n;
            },
            None => {
                proof {
                    assert(next_value > -(i128::MIN as int));
                    if all_digits(digits, base as int) {
                        lemma_prefix_exceeds(digits, k + 1, base as int, -(i128::MIN as int));
                    }
                }
                return None;
            },
        }
        i = i + 1;
    }
    proof {
        assert(digits.take(s@.len() - first) =~= digits);
    }
    if neg {
        Some(acc)
    } else if acc == i128::MIN {
        None
    } else {
        Some(-acc)
    }
}

fn remove_underscores(s: &str) -> (r: Vec<char>)
    ensures
        r@ == without_underscores(s@),
{
    let cs = chars_of(s);
    let mut out: Vec<char> = Vec::new();
    let mut i: usize = 0;
    while i < cs.len()
        invariant
            i <= cs@.len(),
            cs@ == s@,
            out@ == without_underscores(cs@.take(i as int)),
        decreases cs@.len() - i,
    {
        proof {
            assert(cs@.take(i + 1) =~= cs@.take(i as int).push(cs@[i as int]));
            cs@.take(i as int).lemma_filter_push(cs@[i as int], |c: char| c != '_');
        }
        if cs[i] != '_' {
            out.push(cs[i]);
        }
        i = i + 1;
    }
    assert(cs@.take(cs@.len() as int) =~= cs@);
    out
}

/// The base a radix letter names: `b` 2, `o` 8, `d` 10, `x` 16
pub open spec fn radix_base(c: char) -> Option<int> {
    if c == 'b' {
        Some(2)
    } else if c == 'o' {
        Some(8)
    } else if c == 'd' {
        Some(10)
    } else if c == 'x' {
        Some(16)
    } else {
        None
    }
}

/// Parse a string as an integer in the base named by `letter`, underscores
/// ignored
pub fn radix(slice: &str, letter: char) -> (r: Result<i128, LiteralError>)
    ensures
        radix_base(letter) is None ==> r == Err::<i128, LiteralError>(
            LiteralError::InvalidRadixLiteral(letter),
        ),
        radix_base(letter) matches Some(base) ==> match parse_radix(
            without_underscores(slice@),
            base,
            true,
            i128::MIN as int,
            i128::MAX as int,
        ) {
            Some(v) => r == Ok::<i128, LiteralError>(v as i128),
            None => r == Err::<i128, LiteralError>(LiteralError::InvalidIntLiteral),
        },
{
    let base: u32 = match letter {
        'b' => 2,
        'o' => 8,
        'd' => 10,
        'x' => 16,
        _ => return Err(LiteralError::InvalidRadixLiteral(letter)),
    };
    let digits = remove_underscores(slice);
    match parse_i128(&digits, base) {
        Some(v) => Ok(v),
        None => Err(LiteralError::InvalidIntLiteral),
    }
}

/// Parse a string as a decimal integer, underscores ignored
pub fn integer(slice: &str) -> (r: Result<i128, LiteralError>)
    ensures
        match parse_radix(without_underscores(slice@), 10, true, i128::MIN as int, i128::MAX as int) {
            Some(v) => r == Ok::<i128, LiteralError>(v as i128),
            None => r == Err::<i128, LiteralError>(LiteralError::InvalidIntLiteral),
        },
{
    let digits = remove_underscores(slice);
    match parse_i128(&digits, 10) {
        Some(v) => Ok(v),
        None => Err(LiteralError::InvalidIntLiteral),
    }
}

/// Parse a string as a decimal, underscores ignored; fpdec reads the rest
pub fn decimal(slice: &str) -> (r: Result<Decimal, LiteralError>)
    ensures
        match decimal_parse(without_underscores(slice@)) {
            Some((c, n)) => r == Ok::<Decimal, LiteralError>(Decimal { coeff: c, n_frac_digits: n })
                && r->Ok_0.wf(),
            None => r == Err::<Decimal, LiteralError>(LiteralError::InvalidFloatLiteral),
        },
{
    let digits = remove_underscores(slice);
    let text = string_from_chars(digits.as_slice());
    match fp_parse(text.as_str()) {
        Some(d) => Ok(d),
        None => Err(LiteralError::InvalidFloatLiteral),
    }
}

/// Wraps `char::from_u32`. Its documentation: a `char` exactly for the values
/// that are Unicode scalar values, holding that value.
#[verifier::external_body]
fn char_from_u32(v: u32) -> (c: Option<char>)
    ensures
        c is Some <==> (v <= 0xD7FF || (0xE000 <= v <= 0x10FFFF)),
        c matches Some(ch) ==> ch as u32 == v,
{
    char::from_u32(v)
}

/// The character a `\u` escape with the four characters `code` stands for:
/// they are read as hexadecimal digits with an optional `+`, as a `u32`, and
/// must give a Unicode scalar value
pub open spec fn unicode_escape(code: Seq<char>) -> Option<char> {
    match parse_radix(code, 16, false, 0, u32::MAX as int) {
        Some(v) => if v <= 0xD7FF || (0xE000 <= v <= 0x10FFFF) {
            Some((v as u32) as char)
        } else {
            None
        },
        None => None,
    }
}

/// The position of the first `}` at or after `i`, or -1 when there is none
pub open spec fn close_brace(s: Seq<char>, i: int) -> int
    decreases s.len() - i,
{
    if i < 0 || i >= s.len() {
        -1
    } else if s[i] == '}' {
        i
    } else {
        close_brace(s, i + 1)
    }
}

/// A `}` found at or after `i` lies within the text
pub proof fn lemma_close_brace_bounds(s: Seq<char>, i: int)
    requires
        i >= 0,
    ensures
        close_brace(s, i) == -1 || (i <= close_brace(s, i) < s.len()),
    decreases s.len() - i,
{
    if i < s.len() && s[i] != '}' {
        lemma_close_brace_bounds(s, i + 1);
    }
}

/// The characters the body of a string literal stands for, its escape
/// sequences replaced, or the error of the first bad escape sequence. A
/// unicode escape is `\u` and four hexadecimal digits, or `\u{...}` with the
/// digits between braces
pub open spec fn unescape(s: Seq<char>) -> Result<Seq<char>, LiteralError>
    decreases s.len(),
{
    if s.len() == 0 {
        Ok(Seq::empty())
    } else if s[0] != '\\' {
        match unescape(s.skip(1)) {
            Ok(rest) => Ok(seq![s[0]] + rest),
            Err(e) => Err(e),
        }
    } else if s.len() < 2 {
        Err(LiteralError::InvalidEscapeSequence('\\'))
    } else {
        let c = s[1];
        let simple = if c == '\'' {
            Some('\'')
        } else if c == '"' {
            Some('"')
        } else if c == '\\' {
            Some('\\')
        } else if c == 'n' {
            Some('\n')
        } else if c == 'r' {
            Some('\r')
        } else if c == 't' {
            Some('\t')
        } else {
            None
        };
        match simple {
            Some(out) => match unescape(s.skip(2)) {
                Ok(rest) => Ok(seq![out] + rest),
                Err(e) => Err(e),
            },
            None => if c == 'u' {
                if s.len() > 2 && s[2] == '{' {
                    let j = close_brace(s, 3);
                    proof {
                        lemma_close_brace_bounds(s, 3);
                    }
                    if j < 0 {
                        Err(LiteralError::InvalidEscapeSequence('\\'))
                    } else {
                        match unicode_escape(s.subrange(3, j)) {
                            Some(out) => match unescape(s.skip(j + 1)) {
                                Ok(rest) => Ok(seq![out] + rest),
                                Err(e) => Err(e),
                            },
                            None => Err(LiteralError::InvalidEscapeSequence('\\')),
                        }
                    }
                } else if s.len() < 6 {
                    Err(LiteralError::InvalidEscapeSequence('\\'))
                } else {
                    match unicode_escape(s.subrange(2, 6)) {
                        Some(out) => match unescape(s.skip(6)) {
                            Ok(rest) => Ok(seq![out] + rest),
                            Err(e) => Err(e),
                        },
                        None => Err(LiteralError::InvalidEscapeSequence('\\')),
                    }
                }
            } else {
                Err(LiteralError::InvalidEscapeSequence(c))
            },
        }
    }
}

fn parse_u32_hex(code: &Vec<char>) -> (r: Option<u32>)
    ensures
        r matches Some(v) ==> parse_radix(code@, 16, false, 0, u32::MAX as int) == Some(v as int),
        r is None ==> parse_radix(code@, 16, false, 0, u32::MAX as int) is None,
{
    if code.len() > 0 && code[0] == '-' {
        assert(!all_digits(code@, 16)) by {
            assert(digit_value(code@[0]) == 99);
        }
        return None;
    }
    match parse_i128(code, 16) {
        Some(v) => {
            if 0 <= v && v <= 0xFFFF_FFFF {
                Some(v as u32)
            } else {
                None
            }
        },
        None => None,
    }
}

/// The character `c` followed by what the rest of a literal's body stands
/// for, or the error the rest has
pub open spec fn after_escape(c: char, rest: Seq<char>) -> Result<Seq<char>, LiteralError> {
    match unescape(rest) {
        Ok(r) => Ok(seq![c] + r),
        Err(e) => Err(e),
    }
}

/// The simple escapes of a string literal, whatever follows them: `\n` is the
/// line feed U+000A, `\r` the carriage return U+000D, `\t` the tab U+0009,
/// and `\\`, `\"` and `\'` the backslash and the quotes; a character that is
/// no backslash stands for itself
pub proof fn lemma_simple_escapes(rest: Seq<char>, c: char)
    ensures
        unescape(seq!['\\', 'n'] + rest) == after_escape('\u{A}', rest),
        unescape(seq!['\\', 'r'] + rest) == after_escape('\u{D}', rest),
        unescape(seq!['\\', 't'] + rest) == after_escape('\u{9}', rest),
        unescape(seq!['\\', '\\'] + rest) == after_escape('\\', rest),
        unescape(seq!['\\', '"'] + rest) == after_escape('"', rest),
        unescape(seq!['\\', '\''] + rest) == after_escape('\'', rest),
        c != '\\' ==> unescape(seq![c] + rest) == after_escape(c, rest),
{
    assert((seq!['\\', 'n'] + rest).skip(2) =~= rest);
    assert((seq!['\\', 'r'] + rest).skip(2) =~= rest);
    assert((seq!['\\', 't'] + rest).skip(2) =~= rest);
    assert((seq!['\\', '\\'] + rest).skip(2) =~= rest);
    assert((seq!['\\', '"'] + rest).skip(2) =~= rest);
    assert((seq!['\\', '\''] + rest).skip(2) =~= rest);
    assert((seq![c] + rest).skip(1) =~= rest);
}

/// Reads a braced unicode escape `\\u{...}` starting at `i` in `all`, the text
/// ending before `end`: the character and the position of the closing brace
fn braced_escape(all: &Vec<char>, i: usize, end: usize) -> (r: Option<(char, usize)>)
    requires
        i + 2 < end < all@.len(),
        all@[i + 2] == '{',
    ensures
        ({
            let cur = all@.subrange(i as int, end as int);
            match r {
                Some((o, j)) => i + 3 <= j < end && close_brace(cur, 3) == j - i
                    && unicode_escape(cur.subrange(3, j - i)) == Some(o),
                None => close_brace(cur, 3) == -1 || (close_brace(cur, 3) >= 3
                    && unicode_escape(cur.subrange(3, close_brace(cur, 3))) is None),
            }
        }),
{
    let ghost cur = all@.subrange(i as int, end as int);
    let mut j = i + 3;
    let mut code: Vec<char> = Vec::new();
    while j < end && all[j] != '}'
        invariant
            i + 3 <= j <= end,
            end < all@.len(),
            cur == all@.subrange(i as int, end as int),
            close_brace(cur, 3) == close_brace(cur, j - i),
            code@ == cur.subrange(3, j - i),
        decreases end - j,
    {
        assert(cur[j - i] == all@[j as int]);
        assert(cur.subrange(3, j - i + 1) =~= code@.push(all@[j as int]));
        code.push(all[j]);
        j = j + 1;
    }
    if j == end {
        assert(close_brace(cur, j - i) == -1);
        return None;
    }
    assert(cur[j - i] == '}');
    assert(close_brace(cur, 3) == j - i);
    let ch = match parse_u32_hex(&code) {
        Some(v) => char_from_u32(v),
        None => None,
    };
    match ch {
        Some(o) => {
            proof {
                vstd::utf8::char_u32_cast(o, o as u32);
            }
            Some((o, j))
        },
        None => None,
    }
}

/// Parse the text of a string literal, quotes included, into the string it
/// stands for
pub fn string(slice: &str) -> (r: Result<String, LiteralError>)
    requires
        slice@.len() >= 2,
    ensures
        match unescape(slice@.subrange(1, slice@.len() - 1)) {
            Ok(text) => r matches Ok(s) && s@ == text,
            Err(e) => r == Err::<String, LiteralError>(e),
        },
{
    let all = chars_of(slice);
    let end = all.len() - 1;
    let ghost body = all@.subrange(1, end as int);
    let mut out: Vec<char> = Vec::new();
    let mut i: usize = 1;
    while i < end
        invariant
            1 <= i <= end,
            end + 1 == all@.len(),
            all@ == slice@,
            body == all@.subrange(1, end as int),
            unescape(body) == match unescape(all@.subrange(i as int, end as int)) {
                Ok(rest) => Ok(out@ + rest),
                Err(e) => Err(e),
            },
        decreases end - i,
    {
        let ghost cur = all@.subrange(i as int, end as int);
        let c = all[i];
        assert(cur[0] == c);
        if c != '\\' {
            proof {
                assert(cur.skip(1) =~= all@.subrange(i + 1, end as int));
                assert(out@.push(c) + unescape(cur.skip(1))->Ok_0 =~= out@ + (seq![c] + unescape(cur.skip(1))->Ok_0));
            }
            out.push(c);
            i = i + 1;
            continue;
        }
        if i + 1 >= end {
            return Err(LiteralError::InvalidEscapeSequence('\\'));
        }
        let e = all[i + 1];
        assert(cur[1] == e);
        let simple = if e == '\'' {
            Some('\'')
        } else if e == '"' {
            Some('"')
        } else if e == '\\' {
            Some('\\')
        } else if e == 'n' {
            Some('\n')
        } else if e == 'r' {
            Some('\r')
        } else if e == 't' {
            Some('\t')
        } else {
            None
        };
        match simple {
            Some(o) => {
                proof {
                    assert(cur.skip(2) =~= all@.subrange(i + 2, end as int));
                    assert(out@.push(o) + unescape(cur.skip(2))->Ok_0 =~= out@ + (seq![o] + unescape(cur.skip(2))->Ok_0));
                }
                out.push(o);
                i = i + 2;
            },
            None => {
                if e != 'u' {
                    return Err(LiteralError::InvalidEscapeSequence(e));
                }
                if i + 2 < end && all[i + 2] == '{' {
                    assert(cur[2] == '{');
                    match braced_escape(&all, i, end) {
                        Some((o, j)) => {
                            proof {
                                assert(cur.skip(j - i + 1) =~= all@.subrange(j + 1, end as int));
                                assert(out@.push(o) + unescape(cur.skip(j - i + 1))->Ok_0 =~= out@ + (seq![o]
                                    + unescape(cur.skip(j - i + 1))->Ok_0));
                            }
                            out.push(o);
                            i = j + 1;
                            continue;
                        },
                        None => {
                            return Err(LiteralError::InvalidEscapeSequence('\\'));
                        },
                    }
                }
                if end - i < 6 {
                    return Err(LiteralError::InvalidEscapeSequence('\\'));
                }
                let mut code: Vec<char> = Vec::new();
                code.push(all[i + 2]);
                code.push(all[i + 3]);
                code.push(all[i + 4]);
                code.push(all[i + 5]);
                assert(code@ =~= cur.subrange(2, 6));
                let ch = match parse_u32_hex(&code) {
                    Some(v) => char_from_u32(v),
                    None => None,
                };
                match ch {
                    Some(o) => {
                        proof {
                            vstd::utf8::char_u32_cast(o, o as u32);
                            assert(unicode_escape(cur.subrange(2, 6)) == Some(o));
                            assert(cur.skip(6) =~= all@.subrange(i + 6, end as int));
                            assert(out@.push(o) + unescape(cur.skip(6))->Ok_0 =~= out@ + (seq![o] + unescape(cur.skip(6))->Ok_0));
                        }
                        out.push(o);
                        i = i + 6;
                    },
                    None => {
                        return Err(LiteralError::InvalidEscapeSequence('\\'));
                    },
                }
            },
        }
    }
    assert(all@.subrange(end as int, end as int) =~= Seq::<char>::empty());
    assert(out@ + Seq::<char>::empty() =~= out@);
    Ok(string_from_chars(out.as_slice()))
}

} // verus!
