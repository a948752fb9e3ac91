//! Arbitrary-precision integers and their text forms.
//!
//! The arithmetic and the conversions to and from text are done by
//! `num-bigint`. An integer is kept here as plain bytes, so that its value is
//! a function the verifier can read; each operation is a small trusted call
//! that states its result over that value.

use crate::math::base::NumberBase;
use num_bigint::BigInt;
use vstd::arithmetic::power::pow;
use vstd::prelude::*;

verus! {

/// The natural number that a little-endian byte string spells in base 256.
pub open spec fn le_nat(bytes: Seq<u8>) -> nat
    decreases bytes.len(),
{
    if bytes.len() == 0 {
        0
    } else {
        bytes[0] as nat + 256 * le_nat(bytes.drop_first())
    }
}

/// The integer that a little-endian two's-complement byte string spells.
pub open spec fn le_int(bytes: Seq<u8>) -> int {
    if bytes.len() > 0 && bytes.last() >= 128 {
        le_nat(bytes) - pow(256, bytes.len())
    } else {
        le_nat(bytes) as int
    }
}

/// The glyph of one digit: `0` to `9`, then `A` to `F`.
pub open spec fn digit_char(d: int) -> char {
    if 0 <= d < 16 {
        seq!['0', '1', '2', '3', '4', '5', '6', '7', '8', '9', 'A', 'B', 'C', 'D', 'E', 'F'][d]
    } else {
        '?'
    }
}

/// The value of a decimal digit glyph, or 10 for any other character.
pub open spec fn decimal_digit_value(c: char) -> nat {
    if c == '0' {
        0
    } else if c == '1' {
        1
    } else if c == '2' {
        2
    } else if c == '3' {
        3
    } else if c == '4' {
        4
    } else if c == '5' {
        5
    } else if c == '6' {
        6
    } else if c == '7' {
        7
    } else if c == '8' {
        8
    } else if c == '9' {
        9
    } else {
        10
    }
}

/// Whether `c` is one of `0` to `9`.
pub open spec fn is_decimal_digit(c: char) -> bool {
    decimal_digit_value(c) < 10
}

/// Positional notation of `n` in base `radix`, most significant digit first,
/// without leading zeros; zero is the single digit `0`.
pub open spec fn radix_digits(n: nat, radix: nat) -> Seq<char>
    decreases n,
{
    if radix < 2 || n < radix {
        seq![digit_char(n as int)]
    } else {
        proof {
            assert(n / radix < n) by (nonlinear_arith)
                requires
                    radix >= 2,
                    n >= radix,
            ;
        }
        radix_digits(n / radix, radix).push(digit_char((n % radix) as int))
    }
}

/// Positional notation of an integer: a minus sign if it is negative, then
/// the digits of its magnitude.
pub open spec fn signed_digits(i: int, radix: nat) -> Seq<char> {
    if i < 0 {
        seq!['-'] + radix_digits((-i) as nat, radix)
    } else {
        radix_digits(i as nat, radix)
    }
}

/// The number spelled by a run of decimal digits in which underscores may
/// stand between or after the digits and count for nothing.
pub open spec fn decimal_value(s: Seq<char>) -> nat
    decreases s.len(),
{
    if s.len() == 0 {
        0
    } else if s.last() == '_' {
        decimal_value(s.drop_last())
    } else {
        10 * decimal_value(s.drop_last()) + decimal_digit_value(s.last())
    }
}

/// The value of an unsigned decimal text: it starts with a digit and holds
/// nothing but digits and underscores.
pub open spec fn unsigned_text_value(s: Seq<char>) -> Option<int> {
    if s.len() > 0 && is_decimal_digit(s[0]) && forall|i: int|
        0 <= i < s.len() ==> is_decimal_digit(#[trigger] s[i]) || s[i] == '_' {
        Some(decimal_value(s) as int)
    } else {
        None
    }
}

/// The value of a decimal integer text: one optional sign, `-` or `+`, then
/// an unsigned decimal text. `None` for anything else.
pub open spec fn int_text_value(s: Seq<char>) -> Option<int> {
    if s.len() > 0 && s[0] == '-' {
        match unsigned_text_value(s.drop_first()) {
            Some(v) => Some(-v),
            None => None,
        }
    } else if s.len() > 0 && s[0] == '+' {
        unsigned_text_value(s.drop_first())
    } else {
        unsigned_text_value(s)
    }
}

/// Whether `c` is one of the sixteen digit glyphs.
pub open spec fn is_digit_glyph(c: char) -> bool {
    exists|d: int| 0 <= d < 16 && c == digit_char(d)
}

/// The digits of a number are at least one, and each is a digit glyph.
pub proof fn lemma_radix_digits_shape(n: nat, radix: nat)
    requires
        2 <= radix <= 16,
    ensures
        radix_digits(n, radix).len() >= 1,
        forall|i: int|
            0 <= i < radix_digits(n, radix).len() ==> is_digit_glyph(
                #[trigger] radix_digits(n, radix)[i],
            ),
        radix_digits(n, radix)[0] != '-',
    decreases n,
{
    if n < radix {
        assert(is_digit_glyph(digit_char(n as int)));
    } else {
        assert(n / radix < n) by (nonlinear_arith)
            requires
                radix >= 2,
                n >= radix,
        ;
        lemma_radix_digits_shape(n / radix, radix);
        assert(is_digit_glyph(digit_char((n % radix) as int)));
    }
    let first = radix_digits(n, radix)[0];
    assert(is_digit_glyph(first));
}

/// The decimal digits of a number are decimal digit glyphs, and they spell
/// the number.
pub proof fn lemma_decimal_digits_spell(n: nat)
    ensures
        radix_digits(n, 10).len() >= 1,
        forall|i: int|
            0 <= i < radix_digits(n, 10).len() ==> is_decimal_digit(
                #[trigger] radix_digits(n, 10)[i],
            ),
        decimal_value(radix_digits(n, 10)) == n,
    decreases n,
{
    let s = radix_digits(n, 10);
    if n < 10 {
        assert(decimal_digit_value(digit_char(n as int)) == n);
        assert(s.drop_last() =~= Seq::<char>::empty());
        assert(decimal_value(s.drop_last()) == 0);
    } else {
        lemma_decimal_digits_spell(n / 10);
        let d = n % 10;
        assert(decimal_digit_value(digit_char(d as int)) == d);
        assert(s.drop_last() =~= radix_digits(n / 10, 10));
        assert(s.last() == digit_char(d as int));
    }
}

/// Digits written behind a text count in full, and what stood before them
/// moves up by one power of ten for each of them.
pub proof fn lemma_decimal_value_concat(a: Seq<char>, b: Seq<char>)
    requires
        forall|i: int| 0 <= i < b.len() ==> is_decimal_digit(#[trigger] b[i]),
    ensures
        decimal_value(a + b) == decimal_value(a) * pow(10, b.len()) + decimal_value(b),
    decreases b.len(),
{
    if b.len() == 0 {
        assert(a + b =~= a);
        vstd::arithmetic::power::lemma_pow0(10);
    } else {
        let init = b.drop_last();
        lemma_decimal_value_concat(a, init);
        assert((a + b).drop_last() =~= a + init);
        assert((a + b).last() == b.last());
        assert(is_decimal_digit(b[b.len() - 1]));
        vstd::arithmetic::power::lemma_pow1(10);
        vstd::arithmetic::power::lemma_pow_adds(10, init.len(), 1);
        let p = pow(10, init.len());
        let x = decimal_value(a) as int;
        assert(pow(10, b.len()) == p * 10);
        assert(10 * (x * p) == x * (p * 10)) by (nonlinear_arith);
    }
}

/// A text of decimal digits, at least one, reads as the number it spells.
pub proof fn lemma_digits_read_back(s: Seq<char>)
    requires
        s.len() >= 1,
        forall|i: int| 0 <= i < s.len() ==> is_decimal_digit(#[trigger] s[i]),
    ensures
        int_text_value(s) == Some(decimal_value(s) as int),
{
    assert(is_decimal_digit(s[0]));
}

/// An arbitrary-precision signed integer, held as its little-endian
/// two's-complement bytes.
#[derive(Debug)]
pub struct NumComponent {
    pub(crate) bytes: Vec<u8>,
}

impl View for NumComponent {
    type V = int;

    closed spec fn view(&self) -> int {
        le_int(self.bytes@)
    }
}

impl Clone for NumComponent {
    fn clone(&self) -> (r: Self)
        ensures
            r@ == self@,
    {
        let bytes = self.bytes.clone();
        assert(bytes@ =~= self.bytes@);
        NumComponent { bytes }
    }
}

/// `BigInt::from` on an `i64`: the integer with that value.
#[verifier::external_body]
fn bigint_from_i64(v: i64) -> (r: NumComponent)
    ensures
        r@ == v,
{
    NumComponent { bytes: BigInt::from(v).to_signed_bytes_le() }
}

/// `BigInt`'s `FromStr`, which reads base 10. It takes one optional sign and
/// then digits, the first of them a real digit; underscores among the digits
/// are skipped. Everything else, the empty text included, is an error.
#[verifier::external_body]
fn bigint_from_str(s: &str) -> (r: Option<NumComponent>)
    ensures
        match r {
            Some(n) => int_text_value(s@) == Some(n@),
            None => int_text_value(s@) is None,
        },
{
    match s.parse::<BigInt>() {
        Ok(n) => Some(NumComponent { bytes: n.to_signed_bytes_le() }),
        Err(_) => None,
    }
}

/// The product of two integers, by `BigInt`'s `*`.
#[verifier::external_body]
fn bigint_mul(a: &NumComponent, b: &NumComponent) -> (r: NumComponent)
    ensures
        r@ == a@ * b@,
{
    let p = BigInt::from_signed_bytes_le(&a.bytes) * BigInt::from_signed_bytes_le(&b.bytes);
    NumComponent { bytes: p.to_signed_bytes_le() }
}

/// `BigInt`'s `Display`: a minus sign if negative, then the decimal digits.
#[verifier::external_body]
fn bigint_decimal(n: &NumComponent) -> (r: String)
    ensures
        r@ == signed_digits(n@, 10),
{
    format!("{}", BigInt::from_signed_bytes_le(&n.bytes))
}

/// `BigInt`'s `Binary` without the alternate flag: a minus sign if negative,
/// then the binary digits, no prefix.
#[verifier::external_body]
fn bigint_binary(n: &NumComponent) -> (r: String)
    ensures
        r@ == signed_digits(n@, 2),
{
    format!("{:b}", BigInt::from_signed_bytes_le(&n.bytes))
}

/// `BigInt`'s `UpperHex` without the alternate flag: a minus sign if
/// negative, then the hexadecimal digits in upper case, no prefix.
#[verifier::external_body]
fn bigint_upper_hex(n: &NumComponent) -> (r: String)
    ensures
        r@ == signed_digits(n@, 16),
{
    format!("{:X}", BigInt::from_signed_bytes_le(&n.bytes))
}

impl NumComponent {
    /// The integer with the value of `v`.
    pub fn from(v: i64) -> (r: NumComponent)
        ensures
            r@ == v,
    {
        bigint_from_i64(v)
    }

    /// Reads a decimal integer: an optional sign and digits.
    pub fn from_str(s: &str) -> (r: Option<NumComponent>)
        ensures
            match r {
                Some(n) => int_text_value(s@) == Some(n@),
                None => int_text_value(s@) is None,
            },
    {
        bigint_from_str(s)
    }

    /// The product of `self` and `rhs`.
    pub fn multiply(&self, rhs: &NumComponent) -> (r: NumComponent)
        ensures
            r@ == self@ * rhs@,
    {
        bigint_mul(self, rhs)
    }

    /// The digits of `self` in `base`, after a minus sign if it is negative.
    pub fn to_digits(&self, base: NumberBase) -> (r: String)
        ensures
            r@ == signed_digits(self@, base.radix()),
    {
        match base {
            NumberBase::Binary => bigint_binary(self),
            NumberBase::Decimal => bigint_decimal(self),
            NumberBase::Hexadecimal => bigint_upper_hex(self),
        }
    }
}

} // verus!
