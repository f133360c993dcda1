//! Fixed-point numbers: a decimal value with an optional currency symbol and
//! an optional precision. The decimal arithmetic is fpdec's.
use crate::text::{chars_of, decimal, digit_char, lemma_text_order, str_eq, text_less, text_lt};
use crate::traits::{ByteDecodeError, ByteReader, SerializeToBytes};
use crate::value::error::ValueError;
use fpdec::{CheckedAdd, CheckedDiv, CheckedMul, CheckedRem, CheckedSub, Round};
use vstd::prelude::*;

verus! {

/// Powers of ten are positive
pub proof fn lemma_pow10_pos(n: nat)
    ensures
        pow10(n) >= 1,
    decreases n,
{
    if n > 0 {
        lemma_pow10_pos((n - 1) as nat);
    }
}

/// Most fractional digits a decimal can have
pub const MAX_N_FRAC_DIGITS: u8 = 18;

/// `10^n`
pub open spec fn pow10(n: nat) -> int
    decreases n,
{
    if n == 0 {
        1
    } else {
        10 * pow10((n - 1) as nat)
    }
}

/// A decimal number: `coeff / 10^n_frac_digits`, as fpdec holds it
#[derive(Debug, Clone, Copy, PartialEq, Eq, Structural)]
pub struct Decimal {
    /// The digits of the number
    pub coeff: i128,
    /// How many of the digits are fractional
    pub n_frac_digits: u8,
}

impl Decimal {
    /// The number of fractional digits is one fpdec supports
    pub open spec fn wf(&self) -> bool {
        self.n_frac_digits <= MAX_N_FRAC_DIGITS
    }

    /// The numerator of the value over `10^n` for `n` at least its fractional
    /// digits
    pub open spec fn scaled(&self, n: nat) -> int {
        self.coeff * pow10((n - self.n_frac_digits) as nat)
    }

    /// The two decimals have the same value
    pub open spec fn same_value(&self, other: Decimal) -> bool {
        self.coeff * pow10(other.n_frac_digits as nat) == other.coeff * pow10(
            self.n_frac_digits as nat,
        )
    }

    /// This value is below the other one
    pub open spec fn less_than(&self, other: Decimal) -> bool {
        self.coeff * pow10(other.n_frac_digits as nat) < other.coeff * pow10(
            self.n_frac_digits as nat,
        )
    }

    /// Zero
    pub open spec fn spec_zero() -> Decimal {
        Decimal { coeff: 0, n_frac_digits: 0 }
    }

    /// This value is one
    pub open spec fn is_one(&self) -> bool {
        self.coeff == pow10(self.n_frac_digits as nat)
    }
}

/// What fpdec's `checked_add` gives: both coefficients brought to the larger
/// number of fractional digits, then added; `None` when a step overflows
pub open spec fn checked_add_spec(a: Decimal, b: Decimal) -> Option<Decimal> {
    let n: nat = if a.n_frac_digits >= b.n_frac_digits {
        a.n_frac_digits as nat
    } else {
        b.n_frac_digits as nat
    };
    let (x, y) = (a.scaled(n), b.scaled(n));
    if i128::MIN <= x <= i128::MAX && i128::MIN <= y <= i128::MAX && i128::MIN <= x + y
        <= i128::MAX {
        Some(Decimal { coeff: (x + y) as i128, n_frac_digits: n as u8 })
    } else {
        None
    }
}

/// What fpdec's `checked_sub` gives: as `checked_add_spec`, subtracting
pub open spec fn checked_sub_spec(a: Decimal, b: Decimal) -> Option<Decimal> {
    let n: nat = if a.n_frac_digits >= b.n_frac_digits {
        a.n_frac_digits as nat
    } else {
        b.n_frac_digits as nat
    };
    let (x, y) = (a.scaled(n), b.scaled(n));
    if i128::MIN <= x <= i128::MAX && i128::MIN <= y <= i128::MAX && i128::MIN <= x - y
        <= i128::MAX {
        Some(Decimal { coeff: (x - y) as i128, n_frac_digits: n as u8 })
    } else {
        None
    }
}

/// What fpdec's `checked_mul` gives: zero when either is zero, the other one
/// when one is one, else the product of the coefficients over the sum of the
/// fractional digits; `None` past 18 fractional digits or on overflow
pub open spec fn checked_mul_spec(a: Decimal, b: Decimal) -> Option<Decimal> {
    if a.coeff == 0 || b.coeff == 0 {
        Some(Decimal::spec_zero())
    } else if b.is_one() {
        Some(a)
    } else if a.is_one() {
        Some(b)
    } else if a.n_frac_digits + b.n_frac_digits > MAX_N_FRAC_DIGITS {
        None
    } else if i128::MIN <= a.coeff * b.coeff <= i128::MAX {
        Some(
            Decimal {
                coeff: (a.coeff * b.coeff) as i128,
                n_frac_digits: (a.n_frac_digits + b.n_frac_digits) as u8,
            },
        )
    } else {
        None
    }
}

/// A name for what fpdec's `FromStr` gives for a text, as (coefficient,
/// fractional digits)
pub uninterp spec fn decimal_parse(s: Seq<char>) -> Option<(i128, u8)>;

/// The integer fits in an `i128`
pub open spec fn fits_i128(v: int) -> bool {
    i128::MIN <= v <= i128::MAX
}

/// The magnitude of an integer
pub open spec fn magnitude(v: int) -> int {
    if v < 0 {
        -v
    } else {
        v
    }
}

/// The floor of `x / y`, for a nonzero `y`
pub open spec fn floor_div(x: int, y: int) -> int {
    if y > 0 {
        x / y
    } else {
        (-x) / (-y)
    }
}

/// Rust's `%`: the remainder of the magnitudes, with the sign of `x`
pub open spec fn trunc_rem(x: int, y: int) -> int {
    let r = magnitude(x) % magnitude(y);
    if x < 0 {
        -r
    } else {
        r
    }
}

/// The places fpdec shifts a dividend by, for a quotient with 18 fractional
/// digits
pub open spec fn div_shift(a: Decimal, b: Decimal) -> nat {
    (MAX_N_FRAC_DIGITS + b.n_frac_digits - a.n_frac_digits) as nat
}

/// The dividend's coefficient so shifted
pub open spec fn div_scaled(a: Decimal, b: Decimal) -> int {
    a.coeff * pow10(div_shift(a, b))
}

/// fpdec divides in full: neither operand is zero and the divisor is not one
pub open spec fn div_general(a: Decimal, b: Decimal) -> bool {
    b.coeff != 0 && a.coeff != 0 && !b.is_one()
}

/// fpdec's wide division, taken when the shifted dividend does not fit,
/// reaches the largest `i128` as the floor of the magnitudes with a
/// remainder, for operands of one sign: rounding up from there overflows
pub open spec fn div_rounds_past_max(a: Decimal, b: Decimal) -> bool {
    let x = magnitude(div_scaled(a, b));
    let y = magnitude(b.coeff as int);
    &&& div_general(a, b)
    &&& !fits_i128(div_scaled(a, b))
    &&& (a.coeff > 0) == (b.coeff > 0)
    &&& x / y == i128::MAX
    &&& x % y != 0
}

/// A coefficient that fpdec's rounded division gives for `x / y`: the floor,
/// or the next integer up when `y` does not divide `x`; the wide division,
/// for an `x` that does not fit, may give one less than an exact quotient
pub open spec fn div_rounded_coeff(x: int, y: int, c: int) -> bool {
    let q = floor_div(x, y);
    ||| c == q
    ||| x % y != 0 && c == q + 1
    ||| x % y == 0 && !fits_i128(x) && c == q - 1
}

/// `d` is the coefficient `c` taken at 18 fractional digits, with its
/// trailing zeros removed
pub open spec fn normalized_at_max(c: int, d: Decimal) -> bool {
    &&& d.n_frac_digits <= MAX_N_FRAC_DIGITS
    &&& d.coeff * pow10((MAX_N_FRAC_DIGITS - d.n_frac_digits) as nat) == c
    &&& (d.coeff % 10 != 0 || d.n_frac_digits == 0)
}

/// What fpdec's `checked_div` gives: `None` for a zero divisor, zero for a
/// zero dividend, the dividend for a divisor of one; otherwise the shifted
/// dividend divided by the divisor and rounded, at 18 fractional digits and
/// normalised, or `None` when the quotient of the magnitudes passes `i128`
pub open spec fn div_outcome(a: Decimal, b: Decimal, raw: Option<Decimal>) -> bool {
    if b.coeff == 0 {
        raw is None
    } else if a.coeff == 0 {
        raw == Some(Decimal::spec_zero())
    } else if b.is_one() {
        raw == Some(a)
    } else {
        let x = div_scaled(a, b);
        let wide_overflow = !fits_i128(x) && magnitude(x) / magnitude(b.coeff as int) > i128::MAX;
        match raw {
            None => wide_overflow,
            Some(d) => !wide_overflow && normalized_at_max(
                d.coeff * pow10((MAX_N_FRAC_DIGITS - d.n_frac_digits) as nat),
                d,
            ) && div_rounded_coeff(
                x,
                b.coeff as int,
                d.coeff * pow10((MAX_N_FRAC_DIGITS - d.n_frac_digits) as nat),
            ),
        }
    }
}

/// The remainder of two decimals: that of their coefficients at the larger
/// number of fractional digits, with the dividend's sign; for a divisor of
/// one, the fractional part of the dividend at its own digits
pub open spec fn rem_value(a: Decimal, b: Decimal) -> Decimal {
    if b.is_one() {
        Decimal {
            coeff: trunc_rem(a.coeff as int, pow10(a.n_frac_digits as nat)) as i128,
            n_frac_digits: a.n_frac_digits,
        }
    } else {
        let n: nat = if a.n_frac_digits >= b.n_frac_digits {
            a.n_frac_digits as nat
        } else {
            b.n_frac_digits as nat
        };
        Decimal { coeff: trunc_rem(a.scaled(n), b.scaled(n)) as i128, n_frac_digits: n as u8 }
    }
}

/// What fpdec's `checked_rem` can give: `None` for a zero divisor, zero for a
/// zero dividend, otherwise `rem_value`, or `None` only when the dividend has
/// fewer fractional digits and its shifted coefficient does not fit
pub open spec fn rem_outcome(a: Decimal, b: Decimal, raw: Option<Decimal>) -> bool {
    if b.coeff == 0 {
        raw is None
    } else if a.coeff == 0 {
        raw == Some(Decimal::spec_zero())
    } else {
        match raw {
            None => a.n_frac_digits < b.n_frac_digits && !fits_i128(a.scaled(b.n_frac_digits as nat)),
            Some(d) => d == rem_value(a, b),
        }
    }
}

/// fpdec's division reaches the negation of a coefficient that is the
/// smallest `i128`: neither operand is zero, the divisor is not one, and one
/// of the coefficients is the smallest `i128`
pub open spec fn div_negates_min(a: Decimal, b: Decimal) -> bool {
    &&& b.coeff != 0
    &&& a.coeff != 0
    &&& !b.is_one()
    &&& (a.coeff == i128::MIN || b.coeff == i128::MIN)
}

/// fpdec's remainder reaches the smallest `i128` by minus one
pub open spec fn rem_overflows(a: Decimal, b: Decimal) -> bool {
    a.coeff == i128::MIN && b.coeff == -1
}

/// Wraps fpdec's `CheckedAdd::checked_add`, whose source aligns the
/// coefficients and adds them with checked arithmetic
#[verifier::external_body]
fn fp_checked_add(a: Decimal, b: Decimal) -> (r: Option<Decimal>)
    requires
        a.wf(),
        b.wf(),
    ensures
        r == checked_add_spec(a, b),
{
    let x = fpdec::Decimal::new_raw(a.coeff, a.n_frac_digits);
    let y = fpdec::Decimal::new_raw(b.coeff, b.n_frac_digits);
    x.checked_add(y).map(|d| Decimal { coeff: d.coefficient(), n_frac_digits: d.n_frac_digits() })
}

/// Wraps fpdec's `CheckedSub::checked_sub`, whose source aligns the
/// coefficients and subtracts them with checked arithmetic
#[verifier::external_body]
fn fp_checked_sub(a: Decimal, b: Decimal) -> (r: Option<Decimal>)
    requires
        a.wf(),
        b.wf(),
    ensures
        r == checked_sub_spec(a, b),
{
    let x = fpdec::Decimal::new_raw(a.coeff, a.n_frac_digits);
    let y = fpdec::Decimal::new_raw(b.coeff, b.n_frac_digits);
    x.checked_sub(y).map(|d| Decimal { coeff: d.coefficient(), n_frac_digits: d.n_frac_digits() })
}

/// Wraps fpdec's `CheckedMul::checked_mul`, as its source shows it
#[verifier::external_body]
fn fp_checked_mul(a: Decimal, b: Decimal) -> (r: Option<Decimal>)
    requires
        a.wf(),
        b.wf(),
    ensures
        r == checked_mul_spec(a, b),
{
    let x = fpdec::Decimal::new_raw(a.coeff, a.n_frac_digits);
    let y = fpdec::Decimal::new_raw(b.coeff, b.n_frac_digits);
    x.checked_mul(y).map(|d| Decimal { coeff: d.coefficient(), n_frac_digits: d.n_frac_digits() })
}

/// Wraps fpdec's `CheckedDiv::checked_div`, as `div_outcome` states its
/// source; which of the candidate coefficients comes back depends on the
/// thread's rounding mode, which is not stated here. Its division negates a
/// coefficient, which overflows for the smallest `i128`, and rounding up past
/// the largest `i128` overflows, so those operands are left out
#[verifier::external_body]
fn fp_checked_div(a: Decimal, b: Decimal) -> (r: Option<Decimal>)
    requires
        a.wf(),
        b.wf(),
        !div_negates_min(a, b),
        !div_rounds_past_max(a, b),
    ensures
        div_outcome(a, b, r),
        r matches Some(d) ==> d.wf(),
{
    let x = fpdec::Decimal::new_raw(a.coeff, a.n_frac_digits);
    let y = fpdec::Decimal::new_raw(b.coeff, b.n_frac_digits);
    x.checked_div(y).map(|d| Decimal { coeff: d.coefficient(), n_frac_digits: d.n_frac_digits() })
}

/// Wraps fpdec's `CheckedRem::checked_rem`, as `rem_outcome` states its
/// source; the one `None` of an overflowing step inside it is not pinned down
/// further. It takes the remainder with `%`, which panics for the smallest
/// `i128` by minus one, so those operands are left out
#[verifier::external_body]
fn fp_checked_rem(a: Decimal, b: Decimal) -> (r: Option<Decimal>)
    requires
        a.wf(),
        b.wf(),
        !rem_overflows(a, b),
    ensures
        rem_outcome(a, b, r),
        r matches Some(d) ==> d.wf(),
{
    let x = fpdec::Decimal::new_raw(a.coeff, a.n_frac_digits);
    let y = fpdec::Decimal::new_raw(b.coeff, b.n_frac_digits);
    x.checked_rem(y).map(|d| Decimal { coeff: d.coefficient(), n_frac_digits: d.n_frac_digits() })
}

/// `c` is `v` with its last `s` decimal digits rounded off, by one of the
/// rounding modes: the floor of `v / 10^s`, or, when that division leaves a
/// remainder, the next integer up
pub open spec fn rounds_off(v: int, s: nat, c: int) -> bool {
    c == v / pow10(s) || (v % pow10(s) != 0 && c == v / pow10(s) + 1)
}

/// `d` is `a` rounded to `n` fractional digits: `a` itself when it has no
/// more; zero when `n` is more than 38 digits short; otherwise `a` rounded off
/// to `n` digits, and for a negative `n` to `-n` trailing zeros of an integer
pub open spec fn is_rounding(a: Decimal, n: int, d: Decimal) -> bool {
    if n >= a.n_frac_digits {
        d == a
    } else if n < a.n_frac_digits - 38 {
        d == Decimal::spec_zero()
    } else if n >= 0 {
        &&& d.n_frac_digits == n
        &&& rounds_off(a.coeff as int, (a.n_frac_digits - n) as nat, d.coeff as int)
    } else {
        &&& d.n_frac_digits == 0
        &&& (d.coeff as int) % pow10((-n) as nat) == 0
        &&& rounds_off(
            a.coeff as int,
            (a.n_frac_digits - n) as nat,
            (d.coeff as int) / pow10((-n) as nat),
        )
    }
}

/// Wraps fpdec's `Round::checked_round`. Its source: unchanged when asked for
/// at least as many fractional digits as it has; zero when asked for more than
/// 38 fewer; otherwise the coefficient is divided by a power of ten, taking the
/// floor or the next integer up as the thread's rounding mode says (which of
/// the two is not stated here), to `n` fractional digits, or to none and
/// scaled back for a negative `n`, which can overflow
#[verifier::external_body]
fn fp_checked_round(a: Decimal, n: i8) -> (r: Option<Decimal>)
    requires
        a.wf(),
    ensures
        n >= 0 ==> r is Some,
        r matches Some(d) ==> d.wf() && is_rounding(a, n as int, d),
{
    let x = fpdec::Decimal::new_raw(a.coeff, a.n_frac_digits);
    x.checked_round(n).map(|d| Decimal { coeff: d.coefficient(), n_frac_digits: d.n_frac_digits() })
}

/// Wraps fpdec's `PartialEq`, which compares values
#[verifier::external_body]
pub(crate) fn fp_eq(a: Decimal, b: Decimal) -> (r: bool)
    requires
        a.wf(),
        b.wf(),
    ensures
        r == a.same_value(b),
{
    fpdec::Decimal::new_raw(a.coeff, a.n_frac_digits) == fpdec::Decimal::new_raw(
        b.coeff,
        b.n_frac_digits,
    )
}

/// Wraps fpdec's `PartialOrd`, which compares values
#[verifier::external_body]
pub(crate) fn fp_lt(a: Decimal, b: Decimal) -> (r: bool)
    requires
        a.wf(),
        b.wf(),
    ensures
        r == a.less_than(b),
{
    fpdec::Decimal::new_raw(a.coeff, a.n_frac_digits) < fpdec::Decimal::new_raw(
        b.coeff,
        b.n_frac_digits,
    )
}

/// The text fpdec's `Display` gives: a minus sign for a negative number, the
/// integral digits, then a point and exactly `n_frac_digits` fractional digits
/// when there are any
pub open spec fn decimal_text(d: Decimal) -> Seq<char> {
    let sign = if d.coeff < 0 {
        seq!['-']
    } else {
        Seq::<char>::empty()
    };
    let mag: nat = if d.coeff < 0 {
        (-d.coeff) as nat
    } else {
        d.coeff as nat
    };
    let p = pow10(d.n_frac_digits as nat) as nat;
    if d.n_frac_digits == 0 {
        sign + decimal(mag)
    } else {
        sign + decimal(mag / p) + seq!['.'] + zero_padded(mag % p, d.n_frac_digits as nat)
    }
}

/// The last `width` decimal digits of `n`, with leading zeros
pub open spec fn zero_padded(n: nat, width: nat) -> Seq<char>
    decreases width,
{
    if width == 0 {
        Seq::empty()
    } else {
        zero_padded(n / 10, (width - 1) as nat).push(digit_char(n % 10))
    }
}

/// Wraps fpdec's `Display` with no precision given: the text is
/// `decimal_text`, as fpdec's source writes it. It takes the coefficient's
/// absolute value, which overflows for the smallest `i128`, so that
/// coefficient is left out
#[verifier::external_body]
fn fp_to_string(a: Decimal) -> (s: String)
    requires
        a.wf(),
        a.coeff != i128::MIN,
    ensures
        s@ == decimal_text(a),
{
    fpdec::Decimal::new_raw(a.coeff, a.n_frac_digits).to_string()
}

/// Powers of ten grow with the exponent
proof fn lemma_pow10_monotone(a: nat, b: nat)
    requires
        a <= b,
    ensures
        0 < pow10(a) <= pow10(b),
    decreases b,
{
    if b > a {
        lemma_pow10_monotone(a, (b - 1) as nat);
    } else if a > 0 {
        lemma_pow10_monotone((a - 1) as nat, (a - 1) as nat);
    }
}

/// `10^k`, for at most 36 digits
fn pow10_u128(k: u8) -> (r: u128)
    requires
        k <= 36,
    ensures
        r == pow10(k as nat),
{
    assert(pow10(36) == 1_000_000_000_000_000_000_000_000_000_000_000_000) by {
        reveal_with_fuel(pow10, 37);
    }
    let mut r: u128 = 1;
    let mut i: u8 = 0;
    while i < k
        invariant
            i <= k <= 36,
            r == pow10(i as nat),
            pow10(36) == 1_000_000_000_000_000_000_000_000_000_000_000_000,
        decreases k - i,
    {
        proof {
            lemma_pow10_monotone((i + 1) as nat, 36);
        }
        r = r * 10;
        i = i + 1;
    }
    r
}

/// A floor at or past some value after `j` more decimal shifts stays there:
/// `(q * y + rem) * 10^j / y` is at least `q`
proof fn lemma_shifted_floor(q: int, y: int, rem: int, j: nat)
    requires
        y > 0,
        q >= 0,
        0 <= rem < y,
    ensures
        ((q * y + rem) * pow10(j)) / y >= q,
{
    lemma_pow10_pos(j);
    let t = (q * y + rem) * pow10(j);
    assert(t >= q * y) by (nonlinear_arith)
        requires
            t == (q * y + rem) * pow10(j),
            pow10(j) >= 1,
            q >= 0,
            y > 0,
            rem >= 0,
    ;
    assert(t / y >= q) by (nonlinear_arith)
        requires
            t >= q * y,
            y > 0,
    ;
}

/// Whether the floor of `a * 10^s / y` is the largest `i128`, with a
/// remainder: decimal long division, stopped once the quotient passes it
fn wide_quotient_at_max(a: u128, s: u8, y: u128) -> (r: bool)
    requires
        a <= i128::MAX,
        0 < y <= i128::MAX,
    ensures
        r == ((a * pow10(s as nat)) / (y as int) == i128::MAX && (a * pow10(s as nat)) % (y as int) != 0),
{
    let max: u128 = i128::MAX as u128;
    let mut q: u128 = a / y;
    let mut rem: u128 = a % y;
    let mut i: u8 = 0;
    proof {
        reveal_with_fuel(pow10, 1);
        vstd::arithmetic::div_mod::lemma_fundamental_div_mod(a as int, y as int);
    }
    while i < s
        invariant
            i <= s,
            0 < y <= i128::MAX,
            max == i128::MAX,
            q <= max,
            rem < y,
            q * y + rem == a * pow10(i as nat),
        decreases s - i,
    {
        let mut acc: u128 = 0;
        let mut carry: u128 = 0;
        let mut t: u8 = 0;
        while t < 10
            invariant
                t <= 10,
                0 < y <= i128::MAX,
                rem < y,
                acc < y,
                carry <= t,
                carry * y + acc == rem * t,
            decreases 10 - t,
        {
            let ghost c0 = carry;
            let ghost a0 = acc;
            acc = acc + rem;
            if acc >= y {
                acc = acc - y;
                carry = carry + 1;
                assert(carry * y == c0 * y + y) by (nonlinear_arith)
                    requires
                        carry == c0 + 1,
                ;
            }
            assert(carry * y + acc == c0 * y + a0 + rem);
            assert(carry * y + acc == rem * (t + 1)) by (nonlinear_arith)
                requires
                    carry * y + acc == rem * t + rem,
            {
            }
            t = t + 1;
        }
        let ghost old_q = q;
        if q > (max - carry) / 10 {
            proof {
                assert(q * 10 + carry > max) by (nonlinear_arith)
                    requires
                        q > (max - carry) / 10,
                        carry <= max,
                ;
                let q2 = q * 10 + carry;
                assert(q2 * y + acc == a * pow10((i + 1) as nat)) by (nonlinear_arith)
                    requires
                        q2 == q * 10 + carry,
                        carry * y + acc == rem * 10,
                        q * y + rem == a * pow10(i as nat),
                        pow10((i + 1) as nat) == 10 * pow10(i as nat),
                ;
                lemma_shifted_floor(q2 as int, y as int, acc as int, (s - i - 1) as nat);
                lemma_pow10_add((i + 1) as nat, (s - i - 1) as nat);
                assert((q2 * y + acc) * pow10((s - i - 1) as nat) == a * pow10(s as nat)) by (nonlinear_arith)
                    requires
                        q2 * y + acc == a * pow10((i + 1) as nat),
                        pow10(s as nat) == pow10((i + 1) as nat) * pow10((s - i - 1) as nat),
                ;
            }
            return false;
        }
        proof {
            assert(q * 10 + carry <= max) by (nonlinear_arith)
                requires
                    q <= (max - carry) / 10,
                    carry <= max,
            ;
            assert((q * 10 + carry) * y + acc == a * pow10((i + 1) as nat)) by (nonlinear_arith)
                requires
                    carry * y + acc == rem * 10,
                    q * y + rem == a * pow10(i as nat),
                    pow10((i + 1) as nat) == 10 * pow10(i as nat),
            ;
        }
        q = q * 10 + carry;
        rem = acc;
        i = i + 1;
    }
    proof {
        vstd::arithmetic::div_mod::lemma_fundamental_div_mod_converse(
            a * pow10(s as nat),
            y as int,
            q as int,
            rem as int,
        );
    }
    q == max && rem != 0
}

/// Powers of ten multiply by adding exponents
proof fn lemma_pow10_add(m: nat, n: nat)
    ensures
        pow10(m + n) == pow10(m) * pow10(n),
    decreases n,
{
    if n > 0 {
        lemma_pow10_add(m, (n - 1) as nat);
        assert(pow10(m + n) == 10 * pow10((m + n - 1) as nat));
        assert(pow10(m) * pow10(n) == pow10(m) * (10 * pow10((n - 1) as nat)));
        assert(pow10(m) * (10 * pow10((n - 1) as nat)) == 10 * (pow10(m) * pow10((n - 1) as nat))) by (nonlinear_arith);
    }
}

/// Whether fpdec's division of these operands would round past the largest
/// `i128`
fn div_rounds_past_max_exec(a: Decimal, b: Decimal) -> (r: bool)
    requires
        a.wf(),
        b.wf(),
        div_general(a, b),
        !div_negates_min(a, b),
    ensures
        r == div_rounds_past_max(a, b),
{
    let s: u8 = MAX_N_FRAC_DIGITS + b.n_frac_digits - a.n_frac_digits;
    let p = pow10_u128(s);
    proof {
        lemma_pow10_monotone(s as nat, 36);
        assert(pow10(36) == 1_000_000_000_000_000_000_000_000_000_000_000_000) by {
            reveal_with_fuel(pow10, 37);
        }
    }
    let pi: i128 = p as i128;
    match a.coeff.checked_mul(pi) {
        Some(_) => false,
        None => {
            if (a.coeff > 0) != (b.coeff > 0) {
                false
            } else {
                let ax: u128 = if a.coeff < 0 { (-a.coeff) as u128 } else { a.coeff as u128 };
                let ay: u128 = if b.coeff < 0 { (-b.coeff) as u128 } else { b.coeff as u128 };
                proof {
                    lemma_pow10_pos(s as nat);
                    assert(magnitude(div_scaled(a, b)) == ax * pow10(s as nat)) by (nonlinear_arith)
                        requires
                            div_scaled(a, b) == a.coeff * pow10(s as nat),
                            ax == magnitude(a.coeff as int),
                            pow10(s as nat) >= 1,
                    ;
                }
                wide_quotient_at_max(ax, s, ay)
            }
        },
    }
}

/// Append the last `width` decimal digits of `n`, with leading zeros
fn push_zero_padded(n: u128, width: u8, out: &mut Vec<char>)
    ensures
        final(out)@ == old(out)@ + zero_padded(n as nat, width as nat),
    decreases width,
{
    if width > 0 {
        push_zero_padded(n / 10, width - 1, out);
        out.push(crate::text::digit((n % 10) as u64));
    }
    assert(final(out)@ =~= old(out)@ + zero_padded(n as nat, width as nat));
}

/// The text of a decimal whose coefficient is the smallest `i128`, written
/// as fpdec's `Display` writes every other decimal
fn min_coeff_text(n_frac_digits: u8) -> (s: String)
    requires
        n_frac_digits <= MAX_N_FRAC_DIGITS,
    ensures
        s@ == decimal_text(Decimal { coeff: i128::MIN, n_frac_digits }),
{
    let mag: u128 = (i128::MAX as u128) + 1;
    let mut out: Vec<char> = Vec::new();
    out.push('-');
    if n_frac_digits == 0 {
        crate::text::push_decimal_u128(mag, &mut out);
    } else {
        let p = pow10_u128(n_frac_digits);
        proof {
            lemma_pow10_monotone(0, n_frac_digits as nat);
        }
        crate::text::push_decimal_u128(mag / p, &mut out);
        out.push('.');
        push_zero_padded(mag % p, n_frac_digits, &mut out);
    }
    let ghost d = Decimal { coeff: i128::MIN, n_frac_digits };
    assert(out@ =~= decimal_text(d));
    crate::text::string_from_chars(out.as_slice())
}

/// Wraps fpdec's `FromStr`: its result is named `decimal_parse`
#[verifier::external_body]
pub(crate) fn fp_parse(s: &str) -> (r: Option<Decimal>)
    ensures
        match decimal_parse(s@) {
            Some((c, n)) => r == Some(Decimal { coeff: c, n_frac_digits: n }) && n <= MAX_N_FRAC_DIGITS,
            None => r is None,
        },
{
    match s.parse::<fpdec::Decimal>() {
        Ok(d) => Some(Decimal { coeff: d.coefficient(), n_frac_digits: d.n_frac_digits() }),
        Err(_) => None,
    }
}

impl Decimal {
    /// Zero
    pub fn zero() -> (d: Decimal)
        ensures
            d == Decimal::spec_zero(),
    {
        Decimal { coeff: 0, n_frac_digits: 0 }
    }

    /// The integer `v`
    pub fn from_int(v: i128) -> (d: Decimal)
        ensures
            d == (Decimal { coeff: v, n_frac_digits: 0 }),
    {
        Decimal { coeff: v, n_frac_digits: 0 }
    }

    /// The integral value, when the value is integral
    pub fn to_int(self) -> (r: Option<i128>)
        requires
            self.wf(),
        ensures
            r is Some <==> (self.coeff as int) % pow10(self.n_frac_digits as nat) == 0,
            r matches Some(v) ==> v * pow10(self.n_frac_digits as nat) == self.coeff,
    {
        fp_to_int(self)
    }
}

/// Wraps fpdec's `TryFrom<Decimal> for i128`. Its source: the coefficient
/// divided by `10^n_frac_digits` when that leaves no remainder, else an error
#[verifier::external_body]
fn fp_to_int(a: Decimal) -> (r: Option<i128>)
    requires
        a.wf(),
    ensures
        r is Some <==> (a.coeff as int) % pow10(a.n_frac_digits as nat) == 0,
        r matches Some(v) ==> v * pow10(a.n_frac_digits as nat) == a.coeff,
{
    i128::try_from(fpdec::Decimal::new_raw(a.coeff, a.n_frac_digits)).ok()
}

/// A symbol that can be attached to a number
#[derive(Debug, Clone, PartialEq, Eq, PartialOrd, Ord, Hash)]
pub enum NumberSymbol {
    /// A prefix symbol that is placed before the number
    Prefix(String),
    /// A suffix symbol that is placed after the number
    Suffix(String),
}


/// The text of a symbol, with which side it stands on
pub open spec fn symbol_view(s: Option<NumberSymbol>) -> Option<(bool, Seq<char>)> {
    match s {
        Some(NumberSymbol::Prefix(t)) => Some((true, t@)),
        Some(NumberSymbol::Suffix(t)) => Some((false, t@)),
        None => None,
    }
}

fn clone_symbol(s: &Option<NumberSymbol>) -> (r: Option<NumberSymbol>)
    ensures
        symbol_view(r) == symbol_view(*s),
{
    match s {
        Some(NumberSymbol::Prefix(t)) => Some(NumberSymbol::Prefix(t.clone())),
        Some(NumberSymbol::Suffix(t)) => Some(NumberSymbol::Suffix(t.clone())),
        None => None,
    }
}

fn symbols_differ(a: &NumberSymbol, b: &NumberSymbol) -> (r: bool)
    ensures
        r == (symbol_view(Some(*a)) != symbol_view(Some(*b))),
{
    match (a, b) {
        (NumberSymbol::Prefix(x), NumberSymbol::Prefix(y)) => !crate::text::str_eq(x.as_str(), y.as_str()),
        (NumberSymbol::Suffix(x), NumberSymbol::Suffix(y)) => !crate::text::str_eq(x.as_str(), y.as_str()),
        _ => true,
    }
}

/// The symbol two numbers share: both symbols when they agree, the one there
/// is when only one has one, none when they differ
pub open spec fn merged_symbol(a: Option<(bool, Seq<char>)>, b: Option<(bool, Seq<char>)>) -> Option<
    (bool, Seq<char>),
> {
    match (a, b) {
        (Some(x), Some(y)) => if x != y {
            None
        } else {
            Some(x)
        },
        (Some(x), None) => Some(x),
        (None, Some(y)) => Some(y),
        (None, None) => None,
    }
}

/// Merging symbols does not depend on the order of the numbers; a number with
/// no symbol takes the other's; one symbol merged with itself stays; two
/// different symbols give none
pub proof fn lemma_symbol_merge(a: Option<(bool, Seq<char>)>, b: Option<(bool, Seq<char>)>)
    ensures
        merged_symbol(a, b) == merged_symbol(b, a),
        a is None ==> merged_symbol(a, b) == b,
        b is None ==> merged_symbol(a, b) == a,
        merged_symbol(a, a) == a,
        a is Some && b is Some && a != b ==> merged_symbol(a, b) is None,
{
}

/// The larger precision; any precision is larger than none
pub open spec fn max_precision(a: Option<i8>, b: Option<i8>) -> Option<i8> {
    match (a, b) {
        (Some(x), Some(y)) => Some(if x >= y { x } else { y }),
        (Some(x), None) => Some(x),
        (None, y) => y,
    }
}

/// The common precision does not depend on the order of the numbers: a number
/// with no precision takes the other's, and of two precisions the larger one
pub proof fn lemma_precision_merge(a: Option<i8>, b: Option<i8>)
    ensures
        max_precision(a, b) == max_precision(b, a),
        a is None ==> max_precision(a, b) == b,
        b is None ==> max_precision(a, b) == a,
        a is Some && b is Some ==> (max_precision(a, b) matches Some(m) && m >= a->0 && m >= b->0 && (m
            == a->0 || m == b->0)),
{
}

/// A fixed-point number with an optional currency symbol and precision
#[derive(Debug)]
pub struct Number {
    value: Decimal,
    symbol: Option<NumberSymbol>,
    precision: Option<i8>,
}

impl Number {
    /// The decimal value
    pub closed spec fn value(&self) -> Decimal {
        self.value
    }

    /// The symbol, with the side it stands on
    pub closed spec fn symbol(&self) -> Option<(bool, Seq<char>)> {
        symbol_view(self.symbol)
    }

    /// The precision
    pub closed spec fn precision(&self) -> Option<i8> {
        self.precision
    }

    /// The value has no more fractional digits than the precision, which is
    /// not negative
    pub open spec fn wf(&self) -> bool {
        &&& self.value().wf()
        &&& self.precision() matches Some(p) ==> 0 <= p && self.value().n_frac_digits <= p
    }

    /// Every number is well formed
    #[verifier::type_invariant]
    pub open spec fn keeps_precision(self) -> bool {
        self.wf()
    }

    /// A number with the given value, symbol and precision; the value is
    /// rounded to the precision, by the rounding mode of the thread, when it
    /// has more fractional digits
    pub fn new(value: Decimal, symbol: Option<NumberSymbol>, precision: Option<i8>) -> (n: Self)
        requires
            value.wf(),
            precision matches Some(p) ==> p >= 0,
        ensures
            n.wf(),
            n.symbol() == symbol_view(symbol),
            n.precision() == precision,
            precision is None ==> n.value() == value,
            precision is Some && precision->0 >= value.n_frac_digits ==> n.value() == value,
            precision is Some && precision->0 < value.n_frac_digits ==> n.value().n_frac_digits == precision->0,
            precision matches Some(p) ==> is_rounding(value, p as int, n.value()),
    {
        let v = match precision {
            Some(p) => fp_checked_round(value, p).unwrap(),
            None => value,
        };
        Number { value: v, symbol, precision }
    }

    /// Round the value to the precision, when it has more fractional digits
    pub fn update_precision(&mut self)
        ensures
            final(self).wf(),
            final(self).symbol() == old(self).symbol(),
            final(self).precision() == old(self).precision(),
            old(self).precision() is None ==> final(self).value() == old(self).value(),
            old(self).precision() is Some && old(self).precision()->0 >= old(self).value().n_frac_digits ==> final(self).value() == old(self).value(),
            old(self).precision() is Some && old(self).precision()->0 < old(self).value().n_frac_digits ==> final(self).value().n_frac_digits == old(self).precision()->0,
            old(self).precision() matches Some(p) ==> is_rounding(old(self).value(), p as int, final(self).value()),
    {
        proof {
            use_type_invariant(&*self);
        }
        if let Some(p) = self.precision {
            let rounded = fp_checked_round(self.value, p);
            self.value = rounded.unwrap();
        }
    }

    /// The number is zero
    pub fn is_zero(&self) -> (b: bool)
        ensures
            b == (self.value().coeff == 0),
    {
        self.value.coeff == 0
    }

    /// The two numbers with a common symbol and the larger precision
    pub fn resolve(self, other: Self) -> (r: (Self, Self))
        ensures
            r.0.wf(),
            r.1.wf(),
            rounded_to(r.0, self.value(), max_precision(self.precision(), other.precision())),
            rounded_to(r.1, other.value(), max_precision(self.precision(), other.precision())),
            r.0.symbol() == merged_symbol(self.symbol(), other.symbol()),
            r.1.symbol() == merged_symbol(self.symbol(), other.symbol()),
            r.0.precision() == max_precision(self.precision(), other.precision()),
            r.1.precision() == max_precision(self.precision(), other.precision()),
    {
        proof {
            use_type_invariant(&self);
            use_type_invariant(&other);
        }
        let p = match (self.precision, other.precision) {
            (Some(x), Some(y)) => Some(if x >= y { x } else { y }),
            (Some(x), None) => Some(x),
            (None, y) => y,
        };
        let s = match (&self.symbol, &other.symbol) {
            (Some(a), Some(b)) => if symbols_differ(a, b) {
                None
            } else {
                clone_symbol(&self.symbol)
            },
            (Some(_), None) => clone_symbol(&self.symbol),
            (None, Some(_)) => clone_symbol(&other.symbol),
            (None, None) => None,
        };
        let s2 = clone_symbol(&s);
        (Number::new(self.value, s, p), Number::new(other.value, s2, p))
    }

    /// Decompose the number into its value, symbol and precision
    pub fn decompose(self) -> (r: (Decimal, Option<NumberSymbol>, Option<i8>))
        ensures
            r.0 == self.value(),
            symbol_view(r.1) == self.symbol(),
            r.2 == self.precision(),
    {
        (self.value, self.symbol, self.precision)
    }

    /// The value rounded to `precision` fractional digits, keeping the symbol
    /// and the precision; an overflow is an error
    pub fn round(self, precision: i8) -> (r: Result<Self, ValueError>)
        ensures
            r matches Ok(n) ==> n.wf() && n.symbol() == self.symbol() && n.precision() == self.precision(),
            precision >= self.value().n_frac_digits ==> (r matches Ok(n) && n.value() == self.value()),
            precision >= 0 ==> r is Ok,
            r matches Err(e) ==> e == ValueError::ArithmeticOverflow,
            r matches Ok(n) ==> is_rounding(self.value(), precision as int, n.value()),
    {
        proof {
            use_type_invariant(&self);
        }
        let rounded = match fp_checked_round(self.value, precision) {
            Some(v) => v,
            None => return Err(ValueError::ArithmeticOverflow),
        };
        Ok(Number::new(rounded, self.symbol, self.precision))
    }

    /// The number of an integer: its value, with no symbol and no precision
    pub closed spec fn int_number(v: i128) -> Number {
        Number { value: Decimal { coeff: v, n_frac_digits: 0 }, symbol: None, precision: None }
    }

    /// What the number of an integer holds
    pub proof fn lemma_int_number(v: i128)
        ensures
            Number::int_number(v).wf(),
            Number::int_number(v).value() == (Decimal { coeff: v, n_frac_digits: 0 }),
            Number::int_number(v).symbol() is None,
            Number::int_number(v).precision() is None,
    {
    }

    /// The number for an integer
    pub fn from_i128(v: i128) -> (n: Self)
        ensures
            n == Number::int_number(v),
            n.wf(),
            n.value() == (Decimal { coeff: v, n_frac_digits: 0 }),
            n.symbol() is None,
            n.precision() is None,
    {
        Number { value: Decimal::from_int(v), symbol: None, precision: None }
    }

    /// The number for a boolean: one or zero
    pub fn from_bool(b: bool) -> (n: Self)
        ensures
            n == Number::int_number(if b { 1 } else { 0 }),
            n.wf(),
            n.value() == (Decimal { coeff: if b { 1 } else { 0 }, n_frac_digits: 0 }),
            n.symbol() is None,
            n.precision() is None,
    {
        Number::from_i128(if b { 1 } else { 0 })
    }

    /// The integral value, when the value is integral
    pub fn to_i128(&self) -> (r: Option<i128>)
        ensures
            r is Some <==> (self.value().coeff as int) % pow10(self.value().n_frac_digits as nat) == 0,
            r matches Some(v) ==> v * pow10(self.value().n_frac_digits as nat) == self.value().coeff,
    {
        proof {
            use_type_invariant(self);
        }
        self.value.to_int()
    }

    /// The number as text: the symbol before or after the value
    pub fn to_string(&self) -> (s: String)
        ensures
            s@ == number_text(*self),
    {
        proof {
            use_type_invariant(self);
        }
        let v = if self.value.coeff == i128::MIN {
            min_coeff_text(self.value.n_frac_digits)
        } else {
            fp_to_string(self.value)
        };
        match &self.symbol {
            Some(NumberSymbol::Prefix(t)) => {
                let mut out = t.clone();
                out.append(v.as_str());
                out
            },
            Some(NumberSymbol::Suffix(t)) => {
                let mut out = v;
                out.append(t.as_str());
                out
            },
            None => v,
        }
    }

    /// Add the numbers, with their common symbol and precision; an overflow
    /// is an error
    pub fn checked_add(self, other: Self) -> (r: Result<Self, ValueError>)
        ensures
            number_sum(self, other, r),
    {
        proof {
            use_type_invariant(&self);
            use_type_invariant(&other);
        }
        let (a, b) = self.resolve(other);
        let (v1, _, _) = a.decompose();
        let (v2, symbol, precision) = b.decompose();
        let r = Number::finish(fp_checked_add(v1, v2), symbol, precision);
        proof {
            assert(resolves_to(self, other, v1, v2));
            assert(finishes(
                r,
                checked_add_spec(v1, v2),
                merged_symbol(self.symbol(), other.symbol()),
                max_precision(self.precision(), other.precision()),
            ));
        }
        r
    }

    /// Subtract the numbers, with their common symbol and precision; an overflow
    /// is an error
    pub fn checked_sub(self, other: Self) -> (r: Result<Self, ValueError>)
        ensures
            number_difference(self, other, r),
    {
        proof {
            use_type_invariant(&self);
            use_type_invariant(&other);
        }
        let (a, b) = self.resolve(other);
        let (v1, _, _) = a.decompose();
        let (v2, symbol, precision) = b.decompose();
        let r = Number::finish(fp_checked_sub(v1, v2), symbol, precision);
        proof {
            assert(resolves_to(self, other, v1, v2));
            assert(finishes(
                r,
                checked_sub_spec(v1, v2),
                merged_symbol(self.symbol(), other.symbol()),
                max_precision(self.precision(), other.precision()),
            ));
        }
        r
    }

    /// Multiply the numbers, with their common symbol and precision; an overflow
    /// is an error
    pub fn checked_mul(self, other: Self) -> (r: Result<Self, ValueError>)
        ensures
            number_product(self, other, r),
    {
        proof {
            use_type_invariant(&self);
            use_type_invariant(&other);
        }
        let (a, b) = self.resolve(other);
        let (v1, _, _) = a.decompose();
        let (v2, symbol, precision) = b.decompose();
        let r = Number::finish(fp_checked_mul(v1, v2), symbol, precision);
        proof {
            assert(resolves_to(self, other, v1, v2));
            assert(finishes(
                r,
                checked_mul_spec(v1, v2),
                merged_symbol(self.symbol(), other.symbol()),
                max_precision(self.precision(), other.precision()),
            ));
        }
        r
    }

    /// Divide the numbers, with their common symbol and precision: a zero
    /// divisor is an error; fpdec rounds an inexact quotient by the thread's
    /// rounding mode, which is not stated here
    pub fn checked_div(self, other: Self) -> (r: Result<Self, ValueError>)
        ensures
            number_quotient(self, other, r),
    {
        proof {
            use_type_invariant(&self);
            use_type_invariant(&other);
        }
        let (a, b) = self.resolve(other);
        let (v1, _, _) = a.decompose();
        let (v2, symbol, precision) = b.decompose();
        let one = Decimal::from_int(1);
        let general = v2.coeff != 0 && v1.coeff != 0 && !fp_eq(v2, one);
        let ghost sy = merged_symbol(self.symbol(), other.symbol());
        let ghost pr = max_precision(self.precision(), other.precision());
        proof {
            assert(resolves_to(self, other, v1, v2));
        }
        if general && (v2.coeff == i128::MIN || v1.coeff == i128::MIN) {
            let r = Err(ValueError::ArithmeticOverflow);
            assert(quotient_of(v1, v2, None, r, sy, pr));
            return r;
        }
        if general && div_rounds_past_max_exec(v1, v2) {
            let r = Err(ValueError::ArithmeticOverflow);
            assert(quotient_of(v1, v2, None, r, sy, pr));
            return r;
        }
        let raw = fp_checked_div(v1, v2);
        let r = Number::finish(raw, symbol, precision);
        assert(quotient_of(v1, v2, raw, r, sy, pr));
        r
    }

    /// The remainder of the numbers, with their common symbol and precision: a
    /// zero divisor is an error
    pub fn checked_rem(self, other: Self) -> (r: Result<Self, ValueError>)
        ensures
            number_remainder(self, other, r),
    {
        proof {
            use_type_invariant(&self);
            use_type_invariant(&other);
        }
        let (a, b) = self.resolve(other);
        let (v1, _, _) = a.decompose();
        let (v2, symbol, precision) = b.decompose();
        let ghost sy = merged_symbol(self.symbol(), other.symbol());
        let ghost pr = max_precision(self.precision(), other.precision());
        proof {
            assert(resolves_to(self, other, v1, v2));
        }
        if v1.coeff == i128::MIN && v2.coeff == -1 {
            let r = Err(ValueError::ArithmeticOverflow);
            assert(remainder_of(v1, v2, None, r, sy, pr));
            return r;
        }
        let raw = fp_checked_rem(v1, v2);
        let r = Number::finish(raw, symbol, precision);
        assert(remainder_of(v1, v2, raw, r, sy, pr));
        r
    }

    /// The number for an operation's raw result, rounded to the precision
    fn finish(raw: Option<Decimal>, symbol: Option<NumberSymbol>, precision: Option<i8>) -> (r: Result<Self, ValueError>)
        requires
            raw matches Some(v) ==> v.wf(),
            precision matches Some(p) ==> p >= 0,
        ensures
            finishes(r, raw, symbol_view(symbol), precision),
    {
        match raw {
            Some(v) => Ok(Number::new(v, symbol, precision)),
            None => Err(ValueError::ArithmeticOverflow),
        }
    }

    /// Negate the number: multiply it by -1
    pub fn checked_neg(self) -> (r: Result<Self, ValueError>)
        ensures
            number_negation(self, r),
    {
        proof {
            use_type_invariant(&self);
        }
        let (v, symbol, precision) = self.decompose();
        Number::finish(fp_checked_mul(v, Decimal::from_int(-1)), symbol, precision)
    }
}

/// The text of a number: its symbol before or after its value
pub open spec fn number_text(n: Number) -> Seq<char> {
    match n.symbol() {
        Some((true, t)) => t + decimal_text(n.value()),
        Some((false, t)) => decimal_text(n.value()) + t,
        None => decimal_text(n.value()),
    }
}

/// The number holds `v`, rounded to the precision when `v` has more
/// fractional digits
pub open spec fn rounded_to(n: Number, v: Decimal, precision: Option<i8>) -> bool {
    &&& precision is None || precision->0 >= v.n_frac_digits ==> n.value() == v
    &&& precision is Some && precision->0 < v.n_frac_digits ==> n.value().n_frac_digits == precision->0
    &&& precision matches Some(p) ==> is_rounding(v, p as int, n.value())
}

/// Bringing two numbers to their common precision rounds neither
pub open spec fn exact_resolve(a: Number, b: Number) -> bool {
    let p = max_precision(a.precision(), b.precision());
    p is None || (p->0 >= a.value().n_frac_digits && p->0 >= b.value().n_frac_digits)
}

/// What an operation on numbers gives for the raw result of the decimal
/// operation: an overflow error for none; otherwise a number with the symbol
/// and precision, holding the raw value when the precision allows its
/// fractional digits, and otherwise rounded to the precision
pub open spec fn finishes(
    r: Result<Number, ValueError>,
    raw: Option<Decimal>,
    symbol: Option<(bool, Seq<char>)>,
    precision: Option<i8>,
) -> bool {
    match raw {
        None => r == Err::<Number, ValueError>(ValueError::ArithmeticOverflow),
        Some(v) => (r matches Ok(n) && n.wf() && n.symbol() == symbol && n.precision() == precision
            && rounded_to(n, v, precision)),
    }
}

/// A result of an operation on two numbers carries their common symbol and
/// precision; its one error is an overflow
pub open spec fn shares_operands(a: Number, b: Number, r: Result<Number, ValueError>) -> bool {
    &&& r matches Ok(n) ==> n.wf() && n.symbol() == merged_symbol(a.symbol(), b.symbol())
        && n.precision() == max_precision(a.precision(), b.precision())
    &&& r matches Err(e) ==> e == ValueError::ArithmeticOverflow
}

/// The operands as resolving brings them to their common precision: each one
/// rounded to it when it is set, and otherwise unchanged
pub open spec fn resolves_to(a: Number, b: Number, x: Decimal, y: Decimal) -> bool {
    match max_precision(a.precision(), b.precision()) {
        None => x == a.value() && y == b.value(),
        Some(p) => is_rounding(a.value(), p as int, x) && is_rounding(b.value(), p as int, y),
    }
}

/// What adding two numbers gives: the sum of the resolved operands
pub open spec fn number_sum(a: Number, b: Number, r: Result<Number, ValueError>) -> bool {
    let s = merged_symbol(a.symbol(), b.symbol());
    let p = max_precision(a.precision(), b.precision());
    &&& shares_operands(a, b, r)
    &&& exact_resolve(a, b) ==> finishes(r, checked_add_spec(a.value(), b.value()), s, p)
    &&& exists|x: Decimal, y: Decimal|
        resolves_to(a, b, x, y) && finishes(r, #[trigger] checked_add_spec(x, y), s, p)
}

/// What subtracting two numbers gives: the difference of the resolved operands
pub open spec fn number_difference(a: Number, b: Number, r: Result<Number, ValueError>) -> bool {
    let s = merged_symbol(a.symbol(), b.symbol());
    let p = max_precision(a.precision(), b.precision());
    &&& shares_operands(a, b, r)
    &&& exact_resolve(a, b) ==> finishes(r, checked_sub_spec(a.value(), b.value()), s, p)
    &&& exists|x: Decimal, y: Decimal|
        resolves_to(a, b, x, y) && finishes(r, #[trigger] checked_sub_spec(x, y), s, p)
}

/// What multiplying two numbers gives: the product of the resolved operands
pub open spec fn number_product(a: Number, b: Number, r: Result<Number, ValueError>) -> bool {
    let s = merged_symbol(a.symbol(), b.symbol());
    let p = max_precision(a.precision(), b.precision());
    &&& shares_operands(a, b, r)
    &&& exact_resolve(a, b) ==> finishes(r, checked_mul_spec(a.value(), b.value()), s, p)
    &&& exists|x: Decimal, y: Decimal|
        resolves_to(a, b, x, y) && finishes(r, #[trigger] checked_mul_spec(x, y), s, p)
}

/// What dividing resolved operands gives: an overflow error where fpdec's
/// division would overflow, and otherwise fpdec's quotient, finished
pub open spec fn quotient_of(
    x: Decimal,
    y: Decimal,
    raw: Option<Decimal>,
    r: Result<Number, ValueError>,
    s: Option<(bool, Seq<char>)>,
    p: Option<i8>,
) -> bool {
    if div_negates_min(x, y) || div_rounds_past_max(x, y) {
        r == Err::<Number, ValueError>(ValueError::ArithmeticOverflow)
    } else {
        div_outcome(x, y, raw) && finishes(r, raw, s, p)
    }
}

/// What dividing two numbers gives: fpdec's quotient of the resolved operands
/// (an overflow error for a zero divisor; zero for a zero dividend; the
/// dividend for a divisor of one; else a rounded quotient at 18 fractional
/// digits), finished to the common precision
pub open spec fn number_quotient(a: Number, b: Number, r: Result<Number, ValueError>) -> bool {
    let s = merged_symbol(a.symbol(), b.symbol());
    let p = max_precision(a.precision(), b.precision());
    &&& shares_operands(a, b, r)
    &&& exact_resolve(a, b) && b.value().coeff == 0 ==> r == Err::<Number, ValueError>(
        ValueError::ArithmeticOverflow,
    )
    &&& exact_resolve(a, b) && b.value().coeff != 0 && a.value().coeff == 0 ==> finishes(
        r,
        Some(Decimal::spec_zero()),
        s,
        p,
    )
    &&& exact_resolve(a, b) && b.value().coeff != 0 && a.value().coeff != 0 && b.value().is_one()
        ==> finishes(r, Some(a.value()), s, p)
    &&& exact_resolve(a, b) && div_negates_min(a.value(), b.value()) ==> r == Err::<Number, ValueError>(
        ValueError::ArithmeticOverflow,
    )
    &&& exists|x: Decimal, y: Decimal, raw: Option<Decimal>|
        resolves_to(a, b, x, y) && #[trigger] quotient_of(x, y, raw, r, s, p)
}

/// What taking a remainder of resolved operands gives: an overflow error for
/// the smallest `i128` coefficient by minus one, and otherwise fpdec's
/// remainder, finished
pub open spec fn remainder_of(
    x: Decimal,
    y: Decimal,
    raw: Option<Decimal>,
    r: Result<Number, ValueError>,
    s: Option<(bool, Seq<char>)>,
    p: Option<i8>,
) -> bool {
    if rem_overflows(x, y) {
        r == Err::<Number, ValueError>(ValueError::ArithmeticOverflow)
    } else {
        rem_outcome(x, y, raw) && finishes(r, raw, s, p)
    }
}

/// What the remainder of two numbers gives: fpdec's remainder of the resolved
/// operands, finished to the common precision; an overflow error for a zero
/// divisor, and for the smallest `i128` coefficient by minus one
pub open spec fn number_remainder(a: Number, b: Number, r: Result<Number, ValueError>) -> bool {
    let s = merged_symbol(a.symbol(), b.symbol());
    let p = max_precision(a.precision(), b.precision());
    &&& shares_operands(a, b, r)
    &&& exact_resolve(a, b) && rem_overflows(a.value(), b.value()) ==> r == Err::<Number, ValueError>(
        ValueError::ArithmeticOverflow,
    )
    &&& exact_resolve(a, b) && b.value().coeff == 0 ==> r == Err::<Number, ValueError>(
        ValueError::ArithmeticOverflow,
    )
    &&& exists|x: Decimal, y: Decimal, raw: Option<Decimal>|
        resolves_to(a, b, x, y) && #[trigger] remainder_of(x, y, raw, r, s, p)
}

/// What negating a number gives: the number times minus one
pub open spec fn number_negation(a: Number, r: Result<Number, ValueError>) -> bool {
    finishes(r, checked_mul_spec(a.value(), Decimal { coeff: -1i128, n_frac_digits: 0u8 }), a.symbol(), a.precision())
}

/// Symbols are ordered none first, then prefixes before suffixes, then by
/// their text
pub open spec fn symbol_lt(a: Option<(bool, Seq<char>)>, b: Option<(bool, Seq<char>)>) -> bool {
    match (a, b) {
        (None, Some(_)) => true,
        (Some((pa, ta)), Some((pb, tb))) => (pa && !pb) || (pa == pb && text_lt(ta, tb)),
        _ => false,
    }
}

/// Precisions are ordered none first, then by value
pub open spec fn precision_lt(a: Option<i8>, b: Option<i8>) -> bool {
    match (a, b) {
        (None, Some(_)) => true,
        (Some(x), Some(y)) => x < y,
        _ => false,
    }
}

/// Numbers are equal when their values, symbols and precisions are
pub open spec fn number_eq(a: Number, b: Number) -> bool {
    a.value().same_value(b.value()) && a.symbol() == b.symbol() && a.precision() == b.precision()
}

/// Numbers are ordered by value, then by symbol, then by precision
pub open spec fn number_lt(a: Number, b: Number) -> bool {
    ||| a.value().less_than(b.value())
    ||| a.value().same_value(b.value()) && symbol_lt(a.symbol(), b.symbol())
    ||| a.value().same_value(b.value()) && a.symbol() == b.symbol() && precision_lt(
        a.precision(),
        b.precision(),
    )
}

/// Numbers are totally ordered: exactly one of `a` before `b`, `a` equal to
/// `b`, `b` before `a`
pub proof fn lemma_number_order(a: Number, b: Number)
    ensures
        number_lt(a, b) || number_eq(a, b) || number_lt(b, a),
        !(number_lt(a, b) && number_lt(b, a)),
        !(number_lt(a, b) && number_eq(a, b)),
{
    match (a.symbol(), b.symbol()) {
        (Some((pa, ta)), Some((pb, tb))) => {
            lemma_text_order(ta, tb);
        },
        _ => {},
    }
}

/// Compares two symbols: (equal, less)
fn compare_symbols(a: &Option<NumberSymbol>, b: &Option<NumberSymbol>) -> (r: (bool, bool))
    ensures
        r.0 == (symbol_view(*a) == symbol_view(*b)),
        r.1 == symbol_lt(symbol_view(*a), symbol_view(*b)),
{
    match (a, b) {
        (None, None) => (true, false),
        (None, Some(_)) => (false, true),
        (Some(_), None) => (false, false),
        (Some(NumberSymbol::Prefix(_)), Some(NumberSymbol::Suffix(_))) => (false, true),
        (Some(NumberSymbol::Suffix(_)), Some(NumberSymbol::Prefix(_))) => (false, false),
        (Some(NumberSymbol::Prefix(x)), Some(NumberSymbol::Prefix(y))) | (
            Some(NumberSymbol::Suffix(x)),
            Some(NumberSymbol::Suffix(y)),
        ) => {
            let eq = str_eq(x.as_str(), y.as_str());
            let lt = text_less(&chars_of(x.as_str()), &chars_of(y.as_str()));
            (eq, lt)
        },
    }
}

impl Number {
    /// Whether the two numbers are equal: in value, symbol and precision
    pub fn equals(&self, other: &Self) -> (r: bool)
        ensures
            r == number_eq(*self, *other),
    {
        proof {
            use_type_invariant(self);
            use_type_invariant(other);
        }
        let (sym_eq, _) = compare_symbols(&self.symbol, &other.symbol);
        fp_eq(self.value, other.value) && sym_eq && self.precision == other.precision
    }

    /// Whether this number comes before the other one: by value, then by
    /// symbol, then by precision
    pub fn precedes(&self, other: &Self) -> (r: bool)
        ensures
            r == number_lt(*self, *other),
    {
        proof {
            use_type_invariant(self);
            use_type_invariant(other);
        }
        if fp_lt(self.value, other.value) {
            return true;
        }
        if !fp_eq(self.value, other.value) {
            return false;
        }
        let (sym_eq, sym_lt) = compare_symbols(&self.symbol, &other.symbol);
        if sym_lt {
            return true;
        }
        if !sym_eq {
            return false;
        }
        match (self.precision, other.precision) {
            (None, Some(_)) => true,
            (Some(x), Some(y)) => x < y,
            _ => false,
        }
    }
}

impl Clone for Number {
    /// A copy with the same value, symbol and precision
    fn clone(&self) -> (r: Self)
        ensures
            r.value() == self.value(),
            r.symbol() == self.symbol(),
            r.precision() == self.precision(),
    {
        proof {
            use_type_invariant(self);
        }
        Number { value: self.value, symbol: clone_symbol(&self.symbol), precision: self.precision }
    }
}

/// The bytes of a symbol: a tag, 0 for none, 1 for a prefix, 2 for a
/// suffix, then the text of a prefix or suffix
pub open spec fn symbol_encoding(s: Option<NumberSymbol>) -> Seq<u8> {
    match s {
        None => seq![0u8],
        Some(NumberSymbol::Prefix(t)) => seq![1u8] + t.encoding(),
        Some(NumberSymbol::Suffix(t)) => seq![2u8] + t.encoding(),
    }
}

/// The text of a symbol fits its length field
pub open spec fn symbol_encodable(s: Option<NumberSymbol>) -> bool {
    match s {
        Some(NumberSymbol::Prefix(t)) => t.encodable(),
        Some(NumberSymbol::Suffix(t)) => t.encodable(),
        None => true,
    }
}

proof fn lemma_symbol_prefix_free(
    a: Option<NumberSymbol>,
    b: Option<NumberSymbol>,
    r1: Seq<u8>,
    r2: Seq<u8>,
)
    requires
        symbol_encodable(a),
        symbol_encodable(b),
        symbol_encoding(a) + r1 == symbol_encoding(b) + r2,
    ensures
        symbol_encoding(a) == symbol_encoding(b),
        r1 == r2,
{
    let x = symbol_encoding(a) + r1;
    assert(x[0] == symbol_encoding(a)[0]);
    assert(x[0] == symbol_encoding(b)[0]);
    match (a, b) {
        (Some(NumberSymbol::Prefix(s)), Some(NumberSymbol::Prefix(t))) | (
            Some(NumberSymbol::Suffix(s)),
            Some(NumberSymbol::Suffix(t)),
        ) => {
            assert(x.skip(1) =~= s.encoding() + r1);
            assert((symbol_encoding(b) + r2).skip(1) =~= t.encoding() + r2);
            String::lemma_prefix_free(s, t, r1, r2);
        },
        _ => {
            assert(x.skip(1) =~= r1);
            assert((symbol_encoding(b) + r2).skip(1) =~= r2);
        },
    }
}

/// Reads the bytes of a symbol
fn read_symbol(bytes: &mut ByteReader) -> (r: Result<Option<NumberSymbol>, ByteDecodeError>)
    ensures
        r matches Ok(s) ==> symbol_encodable(s) && old(bytes).rest() == symbol_encoding(s) + final(bytes).rest(),
        forall|t: Option<NumberSymbol>, tail: Seq<u8>|
            symbol_encodable(t) && old(bytes).rest() == #[trigger] (symbol_encoding(t) + tail) ==> (r matches Ok(
                s) && symbol_view(s) == symbol_view(t) && final(bytes).rest() == tail),
{
    let ghost start = bytes.rest();
    match bytes.next() {
        Some(0u8) => {
            proof {
                assert(start =~= symbol_encoding(None) + bytes.rest());
                assert forall|t: Option<NumberSymbol>, tail: Seq<u8>| symbol_encodable(t) && start
                    == #[trigger] (symbol_encoding(t) + tail) implies t is None && bytes.rest() == tail by {
                    assert(start[0] == symbol_encoding(t)[0]);
                    assert(start.drop_first() =~= tail);
                }
            }
            Ok(None)
        },
        Some(tag) => {
            if tag != 1u8 && tag != 2u8 {
                proof {
                    assert forall|t: Option<NumberSymbol>, tail: Seq<u8>| symbol_encodable(t) && start
                        == #[trigger] (symbol_encoding(t) + tail) implies false by {
                        assert(start[0] == symbol_encoding(t)[0]);
                    }
                }
                return Err(ByteDecodeError::MalformedData(String::from_str("Invalid symbol type")));
            }
            let ghost mid = bytes.rest();
            proof {
                assert forall|t: Option<NumberSymbol>, tail: Seq<u8>| symbol_encodable(t) && start
                    == #[trigger] (symbol_encoding(t) + tail) implies (t matches Some(NumberSymbol::Prefix(x)) && tag == 1 && mid == x.encoding() + tail && x.encodable())
                    || (t matches Some(NumberSymbol::Suffix(x)) && tag == 2 && mid == x.encoding() + tail && x.encodable()) by {
                    assert(start[0] == symbol_encoding(t)[0]);
                    match t {
                        Some(NumberSymbol::Prefix(x)) => {
                            assert(start.drop_first() =~= x.encoding() + tail);
                        },
                        Some(NumberSymbol::Suffix(x)) => {
                            assert(start.drop_first() =~= x.encoding() + tail);
                        },
                        None => {},
                    }
                }
            }
            let text = String::deserialize_from_bytes(bytes)?;
            let sym = if tag == 1u8 {
                NumberSymbol::Prefix(text)
            } else {
                NumberSymbol::Suffix(text)
            };
            proof {
                assert(start =~= seq![tag] + mid);
                assert(mid == text.encoding() + bytes.rest());
                assert(symbol_encoding(Some(sym)) == seq![tag] + text.encoding());
                assert(start =~= symbol_encoding(Some(sym)) + bytes.rest());
            }
            Ok(Some(sym))
        },
        None => Err(ByteDecodeError::UnexpectedEnd),
    }
}

/// Reads the bytes of a precision: a tag, 0 for none, 1 followed by its byte
fn read_precision(bytes: &mut ByteReader) -> (r: Result<Option<i8>, ByteDecodeError>)
    ensures
        r matches Ok(p) ==> old(bytes).rest() == p.encoding() + final(bytes).rest(),
        forall|q: Option<i8>, tail: Seq<u8>|
            old(bytes).rest() == #[trigger] (q.encoding() + tail) ==> r == Ok::<
                Option<i8>,
                ByteDecodeError,
            >(q) && final(bytes).rest() == tail,
{
    let ghost start = bytes.rest();
    match bytes.next() {
        Some(0u8) => {
            proof {
                assert(start =~= Option::<i8>::None.encoding() + bytes.rest());
                assert forall|q: Option<i8>, tail: Seq<u8>| start == #[trigger] (q.encoding() + tail) implies q
                    is None && bytes.rest() == tail by {
                    assert(start[0] == q.encoding()[0]);
                    assert(start.drop_first() =~= tail);
                }
            }
            Ok(None)
        },
        Some(1u8) => {
            let ghost mid = bytes.rest();
            proof {
                assert forall|q: Option<i8>, tail: Seq<u8>| start == #[trigger] (q.encoding() + tail) implies q
                    is Some && bytes.rest() == q->0.encoding() + tail by {
                    assert(start[0] == q.encoding()[0]);
                    assert(start.drop_first() =~= q->0.encoding() + tail);
                }
            }
            let p = i8::deserialize_from_bytes(bytes)?;
            proof {
                assert(start =~= seq![1u8] + mid);
                assert(mid == p.encoding() + bytes.rest());
                assert(start =~= Some(p).encoding() + bytes.rest());
            }
            Ok(Some(p))
        },
        Some(_) => {
            proof {
                assert forall|q: Option<i8>, tail: Seq<u8>| start == #[trigger] (q.encoding() + tail) implies false by {
                    assert(start[0] == q.encoding()[0]);
                }
            }
            Err(ByteDecodeError::MalformedData(String::from_str("Invalid Option")))
        },
        None => Err(ByteDecodeError::UnexpectedEnd),
    }
}

impl SerializeToBytes for Number {
    /// The coefficient, the number of fractional digits, the symbol and the
    /// precision
    closed spec fn encoding(&self) -> Seq<u8> {
        self.value.coeff.encoding() + self.value.n_frac_digits.encoding() + symbol_encoding(
            self.symbol,
        ) + self.precision.encoding()
    }

    closed spec fn encodable(&self) -> bool {
        symbol_encodable(self.symbol) && self.wf()
    }

    #[verifier::spinoff_prover]
    #[verifier::rlimit(40)]
    proof fn lemma_prefix_free(a: Self, b: Self, r1: Seq<u8>, r2: Seq<u8>) {
        let (ca, cb) = (a.value.coeff, b.value.coeff);
        let (fa, fb) = (a.value.n_frac_digits, b.value.n_frac_digits);
        let ra = fa.encoding() + symbol_encoding(a.symbol) + a.precision.encoding() + r1;
        let rb = fb.encoding() + symbol_encoding(b.symbol) + b.precision.encoding() + r2;
        assert(a.encoding() + r1 =~= ca.encoding() + ra);
        assert(b.encoding() + r2 =~= cb.encoding() + rb);
        i128::lemma_prefix_free(ca, cb, ra, rb);
        let sa = symbol_encoding(a.symbol) + a.precision.encoding() + r1;
        let sb = symbol_encoding(b.symbol) + b.precision.encoding() + r2;
        assert(ra =~= fa.encoding() + sa);
        assert(rb =~= fb.encoding() + sb);
        u8::lemma_prefix_free(fa, fb, sa, sb);
        let pa = a.precision.encoding() + r1;
        let pb = b.precision.encoding() + r2;
        assert(sa =~= symbol_encoding(a.symbol) + pa);
        assert(sb =~= symbol_encoding(b.symbol) + pb);
        lemma_symbol_prefix_free(a.symbol, b.symbol, pa, pb);
        Option::<i8>::lemma_prefix_free(a.precision, b.precision, r1, r2);
        assert(a.encoding() =~= ca.encoding() + fa.encoding() + symbol_encoding(a.symbol)
            + a.precision.encoding());
    }

    fn serialize_into_bytes(self) -> (bytes: Vec<u8>) {
        proof {
            use_type_invariant(&self);
        }
        let mut bytes = self.value.coeff.serialize_into_bytes();
        let frac = self.value.n_frac_digits.serialize_into_bytes();
        bytes.extend_from_slice(frac.as_slice());
        let ghost with_symbol = bytes@ + symbol_encoding(self.symbol);
        match self.symbol {
            None => {
                bytes.push(0u8);
            },
            Some(NumberSymbol::Prefix(t)) => {
                bytes.push(1u8);
                let enc = t.serialize_into_bytes();
                bytes.extend_from_slice(enc.as_slice());
            },
            Some(NumberSymbol::Suffix(t)) => {
                bytes.push(2u8);
                let enc = t.serialize_into_bytes();
                bytes.extend_from_slice(enc.as_slice());
            },
        }
        assert(bytes@ =~= with_symbol);
        let p = self.precision.serialize_into_bytes();
        bytes.extend_from_slice(p.as_slice());
        bytes
    }

    #[verifier::spinoff_prover]
    #[verifier::rlimit(40)]
    /// A symbol tag other than 0, 1 or 2, more than 18 fractional digits,
    /// or a precision that is negative or below the fractional digits, is
    /// malformed data
    fn deserialize_from_bytes(bytes: &mut ByteReader) -> (r: Result<Self, ByteDecodeError>) {
        let ghost start = bytes.rest();
        proof {
            assert forall|v: Number, tail: Seq<u8>| v.encodable() && start == #[trigger] (v.encoding()
                + tail) implies start == v.value.coeff.encoding() + (v.value.n_frac_digits.encoding()
                + symbol_encoding(v.symbol) + v.precision.encoding() + tail) by {
                let rest = v.value.n_frac_digits.encoding() + symbol_encoding(v.symbol)
                    + v.precision.encoding() + tail;
                assert(v.encoding() + tail =~= v.value.coeff.encoding() + rest);
            }
        }
        let coeff = i128::deserialize_from_bytes(bytes)?;
        let ghost s1 = bytes.rest();
        proof {
            assert forall|v: Number, tail: Seq<u8>| v.encodable() && start == #[trigger] (v.encoding()
                + tail) implies coeff == v.value.coeff && s1 == v.value.n_frac_digits.encoding()
                + (symbol_encoding(v.symbol) + v.precision.encoding() + tail) by {
                let rest = v.value.n_frac_digits.encoding() + symbol_encoding(v.symbol)
                    + v.precision.encoding() + tail;
                assert(v.value.n_frac_digits.encoding() + (symbol_encoding(v.symbol)
                    + v.precision.encoding() + tail) =~= rest);
            }
        }
        let frac = u8::deserialize_from_bytes(bytes)?;
        let ghost s2 = bytes.rest();
        proof {
            assert forall|v: Number, tail: Seq<u8>| v.encodable() && start == #[trigger] (v.encoding()
                + tail) implies frac == v.value.n_frac_digits && s2 == symbol_encoding(v.symbol)
                + (v.precision.encoding() + tail) by {
                let rest = symbol_encoding(v.symbol) + v.precision.encoding() + tail;
                assert(symbol_encoding(v.symbol) + (v.precision.encoding() + tail) =~= rest);
            }
        }
        proof {
            assert forall|v: Number, tail: Seq<u8>| v.encodable() && start == #[trigger] (v.encoding()
                + tail) implies s2 == symbol_encoding(v.symbol) + (v.precision.encoding() + tail)
                && symbol_encodable(v.symbol) by {}
        }
        let symbol = read_symbol(bytes)?;
        let ghost s3 = bytes.rest();
        proof {
            assert forall|v: Number, tail: Seq<u8>| v.encodable() && start == #[trigger] (v.encoding()
                + tail) implies symbol_view(symbol) == symbol_view(v.symbol) && s3
                == v.precision.encoding() + tail by {}
        }
        let precision = read_precision(bytes)?;
        proof {
            assert forall|v: Number, tail: Seq<u8>| v.encodable() && start == #[trigger] (v.encoding()
                + tail) implies precision == v.precision by {}
        }
        if frac > MAX_N_FRAC_DIGITS {
            proof {
                assert forall|v: Number, tail: Seq<u8>| v.encodable() && start == #[trigger] (
                v.encoding() + tail) implies false by {
                }
            }
            return Err(ByteDecodeError::MalformedData(String::from_str("Too many fractional digits")));
        }
        if let Some(p) = precision {
            if p < 0 || (frac as i8) > p {
                return Err(ByteDecodeError::MalformedData(String::from_str("Invalid precision")));
            }
        }
        let n = Number { value: Decimal { coeff, n_frac_digits: frac }, symbol, precision };
        proof {
            assert(start =~= n.encoding() + bytes.rest());
        }
        Ok(n)
    }
}

} // verus!
