//! Exact rational numbers.
//!
//! The arithmetic is done by `num-rational`. A number is kept here as the
//! plain bytes of its numerator and denominator, and its value is the real
//! number that the two denote; each operation is a small trusted call that
//! states its result over that value.
//!
//! Every number is in lowest terms with a positive denominator, as
//! `num-rational` keeps every `Ratio` that its constructor or its arithmetic
//! makes. The trusted calls rely on that for what they are given and are
//! trusted for it in what they return.

use crate::math::integer::NumComponent;
use num_bigint::BigInt;
use num_rational::BigRational;
use num_traits::Zero;
use vstd::prelude::*;

verus! {

/// Greatest common divisor of two naturals, by Euclid's algorithm.
pub open spec fn gcd(a: nat, b: nat) -> nat
    decreases b,
{
    if b == 0 {
        a
    } else {
        gcd(b, a % b)
    }
}

/// Whether `n / d` is a fraction in lowest terms with a positive
/// denominator.
pub open spec fn in_lowest_terms(n: int, d: int) -> bool {
    d > 0 && gcd(vstd::math::abs(n) as nat, d as nat) == 1
}

/// The integer part of `v`, rounded towards zero.
pub open spec fn trunc(v: real) -> int {
    if v >= 0real {
        v.floor()
    } else {
        -((-v).floor())
    }
}

/// What is left of `v` once its integer part is taken away: of the same sign
/// as `v` and of magnitude below one.
pub open spec fn fract(v: real) -> real {
    v - trunc(v) as real
}

/// Whether `v` is a whole number.
pub open spec fn is_integral(v: real) -> bool {
    v == v.floor() as real
}

/// The remainder of `a` by `b` that goes with division rounded towards zero.
pub open spec fn rem(a: real, b: real) -> real {
    a - b * (trunc(a / b) as real)
}

/// The real number of a product of integers is the product of their real
/// numbers.
pub proof fn lemma_real_of_product(a: int, b: int)
    ensures
        (a * b) as real == (a as real) * (b as real),
{
    assert((a * b) as real == (a as real) * (b as real)) by (nonlinear_arith);
}

/// An integer, taken as a real number, is whole; it is its own integer part
/// and has no fractional part.
pub proof fn lemma_whole(k: int)
    ensures
        is_integral(k as real),
        (k as real).floor() == k,
        trunc(k as real) == k,
        fract(k as real) == 0real,
{
    let v = k as real;
    let f = v.floor();
    assert(f == k);
    assert(f as real == v);
    let m = -v;
    assert(m == (-k) as real);
    let g = m.floor();
    assert(g == -k);
    assert(trunc(v) == k);
}

/// A whole number is the real number of its integer part.
pub proof fn lemma_integral_is_whole(v: real)
    requires
        is_integral(v),
    ensures
        v == trunc(v) as real,
        trunc(v) == v.floor(),
        fract(v) == 0real,
{
    let k = v.floor();
    assert(v == k as real);
    lemma_whole(k);
}

/// A number is its integer part and its fractional part together; the
/// fractional part is smaller than one in magnitude and has the sign of the
/// number, and the integer part lies between zero and the number.
pub proof fn lemma_trunc_fract(v: real)
    ensures
        v == trunc(v) as real + fract(v),
        -1real < fract(v) < 1real,
        v >= 0real ==> fract(v) >= 0real && 0 <= trunc(v),
        v <= 0real ==> fract(v) <= 0real && trunc(v) <= 0,
        is_integral(v) <==> fract(v) == 0real,
{
    let f = v.floor();
    assert(f as real <= v < f as real + 1real);
    let m = -v;
    let g = m.floor();
    assert(g as real <= m < g as real + 1real);
    if is_integral(v) {
        lemma_integral_is_whole(v);
    }
    if fract(v) == 0real {
        let k = trunc(v);
        assert(v == k as real);
        lemma_whole(k);
    }
}

/// A divisor of a number is the greatest divisor it has in common with the
/// number.
pub proof fn lemma_gcd_of_multiple(a: nat, d: nat)
    requires
        d > 0,
        a % d == 0,
    ensures
        gcd(a, d) == d,
{
    assert(gcd(d, 0) == d);
    assert(gcd(a, d) == gcd(d, a % d));
}

/// A fraction in lowest terms is a whole number only over the denominator
/// one.
pub proof fn lemma_whole_in_lowest_terms(n: int, d: int)
    requires
        in_lowest_terms(n, d),
    ensures
        is_integral(n as real / d as real) <==> d == 1,
{
    let nr = n as real;
    let dr = d as real;
    let q = nr / dr;
    if d == 1 {
        assert(dr == 1real);
        assert(q == nr);
        lemma_whole(n);
    }
    if is_integral(q) {
        let k = q.floor();
        let kr = k as real;
        assert(q == kr);
        assert(nr == kr * dr) by (nonlinear_arith)
            requires
                nr / dr == kr,
                dr > 0real,
        ;
        lemma_real_of_product(k, d);
        assert(n == k * d);
        let a = vstd::math::abs(n);
        let m = vstd::math::abs(k);
        assert(a == m * d) by (nonlinear_arith)
            requires
                n == k * d,
                d > 0,
                a == (if n < 0 { -n } else { n }),
                m == (if k < 0 { -k } else { k }),
        ;
        vstd::arithmetic::div_mod::lemma_mod_multiples_basic(m as int, d);
        lemma_gcd_of_multiple(a, d as nat);
    }
}

/// The greatest common divisor of two numbers is a sum of multiples of
/// the two.
pub proof fn lemma_bezout(a: nat, b: nat) -> (r: (int, int))
    ensures
        a * r.0 + b * r.1 == gcd(a, b),
    decreases b,
{
    if b == 0 {
        (1, 0)
    } else {
        let (x, y) = lemma_bezout(b, a % b);
        let q = a as int / b as int;
        let m = a as int % b as int;
        vstd::arithmetic::div_mod::lemma_fundamental_div_mod(a as int, b as int);
        assert(a * y + b * (x - q * y) == b * x + m * y) by (nonlinear_arith)
            requires
                a == b * q + m,
        ;
        (y, x - q * y)
    }
}

/// A number that divides a product and has no divisor in common with one
/// factor divides the other factor.
pub proof fn lemma_coprime_divides(n: nat, d: nat, m: int)
    requires
        d > 0,
        gcd(n, d) == 1,
        (n * m) % (d as int) == 0,
    ensures
        m % (d as int) == 0,
{
    let (x, y) = lemma_bezout(n, d);
    let di = d as int;
    let t = (n * m) / di;
    vstd::arithmetic::div_mod::lemma_fundamental_div_mod(n * m, di);
    assert(n * m == di * t);
    let w = t * x + m * y;
    assert(m == w * di) by (nonlinear_arith)
        requires
            n * x + di * y == 1,
            n * m == di * t,
            w == t * x + m * y,
    ;
    vstd::arithmetic::div_mod::lemma_mod_multiples_basic(w, di);
}

/// A positive number that divides another positive number is not the
/// greater of the two.
proof fn lemma_divisor_is_smaller(a: int, b: int)
    requires
        a > 0,
        b > 0,
        b % a == 0,
    ensures
        a <= b,
{
    let t = b / a;
    vstd::arithmetic::div_mod::lemma_fundamental_div_mod(b, a);
    assert(a <= b) by (nonlinear_arith)
        requires
            b == a * t,
            a > 0,
            b > 0,
    ;
}

/// A value has one fraction in lowest terms: two such fractions of the
/// same value have the same numerator and the same denominator.
pub proof fn lemma_lowest_terms_unique(n1: int, d1: int, n2: int, d2: int)
    requires
        in_lowest_terms(n1, d1),
        in_lowest_terms(n2, d2),
        n1 as real / d1 as real == n2 as real / d2 as real,
    ensures
        n1 == n2,
        d1 == d2,
{
    let n1r = n1 as real;
    let d1r = d1 as real;
    let n2r = n2 as real;
    let d2r = d2 as real;
    assert(n1r * d2r == n2r * d1r) by (nonlinear_arith)
        requires
            n1r / d1r == n2r / d2r,
            d1r > 0real,
            d2r > 0real,
    ;
    lemma_real_of_product(n1, d2);
    lemma_real_of_product(n2, d1);
    assert(n1 * d2 == n2 * d1);
    let a1 = vstd::math::abs(n1);
    let a2 = vstd::math::abs(n2);
    assert(a1 * d2 == a2 * d1) by (nonlinear_arith)
        requires
            n1 * d2 == n2 * d1,
            d1 > 0,
            d2 > 0,
            a1 == (if n1 < 0 { -n1 } else { n1 }),
            a2 == (if n2 < 0 { -n2 } else { n2 }),
    ;
    // d1 divides a1 * d2 and shares no divisor with a1, so it divides d2
    vstd::arithmetic::div_mod::lemma_mod_multiples_basic(a2 as int, d1);
    assert((a1 * d2) % d1 == 0);
    lemma_coprime_divides(a1, d1 as nat, d2);
    // and the other way round
    vstd::arithmetic::div_mod::lemma_mod_multiples_basic(a1 as int, d2);
    assert((a2 * d1) % d2 == 0);
    lemma_coprime_divides(a2, d2 as nat, d1);
    lemma_divisor_is_smaller(d1, d2);
    lemma_divisor_is_smaller(d2, d1);
    assert(n1 == n2) by (nonlinear_arith)
        requires
            n1 * d2 == n2 * d1,
            d1 == d2,
            d1 > 0,
    ;
}

/// A fraction with a positive denominator is zero only over the numerator
/// zero.
pub proof fn lemma_zero_numerator(n: int, d: int)
    requires
        d > 0,
    ensures
        n as real / d as real == 0real <==> n == 0,
{
    let nr = n as real;
    let dr = d as real;
    assert(nr / dr == 0real <==> nr == 0real) by (nonlinear_arith)
        requires
            dr > 0real,
    ;
}

/// Dividing `k * r + d` by `r`, with `0 <= d < r`, and rounding down gives
/// `k` back.
pub proof fn lemma_floor_of_quotient(k: int, d: int, r: int)
    requires
        0 <= d < r,
    ensures
        (((k * r + d) as real) / (r as real)).floor() == k,
{
    let q = ((k * r + d) as real) / (r as real);
    let rr = r as real;
    let kr = k as real;
    let dr = d as real;
    lemma_real_of_product(k, r);
    assert((k * r + d) as real == kr * rr + dr);
    assert(q == kr + dr / rr) by (nonlinear_arith)
        requires
            q == (kr * rr + dr) / rr,
            rr >= 1real,
    ;
    assert(0real <= dr / rr < 1real) by (nonlinear_arith)
        requires
            0real <= dr < rr,
    ;
}

/// Why an operation on numbers gave no result.
#[derive(Debug, Clone, Copy, PartialEq, Eq)]
pub enum MathError {
    /// The divisor was zero.
    DivisionByZero,
}

/// An exact rational number, kept in lowest terms with a positive
/// denominator.
#[derive(Debug)]
pub struct Num {
    pub(crate) numer: NumComponent,
    pub(crate) denom: NumComponent,
}

impl View for Num {
    type V = real;

    closed spec fn view(&self) -> real {
        self.numer@ as real / self.denom@ as real
    }
}

impl Clone for Num {
    fn clone(&self) -> (r: Self)
        ensures
            r@ == self@,
    {
        proof {
            use_type_invariant(self);
        }
        Num { numer: self.numer.clone(), denom: self.denom.clone() }
    }
}

/// `Ratio::new`: the quotient of two integers, brought to lowest terms.
/// It panics on a zero denominator, which the precondition rules out.
#[verifier::external_body]
fn ratio_new(numer: &NumComponent, denom: &NumComponent) -> (r: Num)
    requires
        denom@ != 0,
    ensures
        r@ == numer@ as real / denom@ as real,
{
    let q = BigRational::new(
        BigInt::from_signed_bytes_le(&numer.bytes),
        BigInt::from_signed_bytes_le(&denom.bytes),
    );
    Num {
        numer: NumComponent { bytes: q.numer().to_signed_bytes_le() },
        denom: NumComponent { bytes: q.denom().to_signed_bytes_le() },
    }
}

/// The sum of two numbers, by `Ratio`'s `+`.
#[verifier::external_body]
fn ratio_add(a: &Num, b: &Num) -> (r: Num)
    ensures
        r@ == a@ + b@,
{
    let x = BigRational::new_raw(
        BigInt::from_signed_bytes_le(&a.numer.bytes),
        BigInt::from_signed_bytes_le(&a.denom.bytes),
    );
    let y = BigRational::new_raw(
        BigInt::from_signed_bytes_le(&b.numer.bytes),
        BigInt::from_signed_bytes_le(&b.denom.bytes),
    );
    let z = x + y;
    Num {
        numer: NumComponent { bytes: z.numer().to_signed_bytes_le() },
        denom: NumComponent { bytes: z.denom().to_signed_bytes_le() },
    }
}

/// The difference of two numbers, by `Ratio`'s `-`.
#[verifier::external_body]
fn ratio_sub(a: &Num, b: &Num) -> (r: Num)
    ensures
        r@ == a@ - b@,
{
    let x = BigRational::new_raw(
        BigInt::from_signed_bytes_le(&a.numer.bytes),
        BigInt::from_signed_bytes_le(&a.denom.bytes),
    );
    let y = BigRational::new_raw(
        BigInt::from_signed_bytes_le(&b.numer.bytes),
        BigInt::from_signed_bytes_le(&b.denom.bytes),
    );
    let z = x - y;
    Num {
        numer: NumComponent { bytes: z.numer().to_signed_bytes_le() },
        denom: NumComponent { bytes: z.denom().to_signed_bytes_le() },
    }
}

/// The product of two numbers, by `Ratio`'s `*`.
#[verifier::external_body]
fn ratio_mul(a: &Num, b: &Num) -> (r: Num)
    ensures
        r@ == a@ * b@,
{
    let x = BigRational::new_raw(
        BigInt::from_signed_bytes_le(&a.numer.bytes),
        BigInt::from_signed_bytes_le(&a.denom.bytes),
    );
    let y = BigRational::new_raw(
        BigInt::from_signed_bytes_le(&b.numer.bytes),
        BigInt::from_signed_bytes_le(&b.denom.bytes),
    );
    let z = x * y;
    Num {
        numer: NumComponent { bytes: z.numer().to_signed_bytes_le() },
        denom: NumComponent { bytes: z.denom().to_signed_bytes_le() },
    }
}

/// `Ratio`'s `checked_div`: nothing when the divisor is zero, and the exact
/// quotient otherwise (on big integers nothing can overflow).
#[verifier::external_body]
fn ratio_checked_div(a: &Num, b: &Num) -> (r: Option<Num>)
    ensures
        b@ == 0real ==> r is None,
        b@ != 0real ==> r is Some && r.unwrap()@ == a@ / b@,
{
    let x = BigRational::new_raw(
        BigInt::from_signed_bytes_le(&a.numer.bytes),
        BigInt::from_signed_bytes_le(&a.denom.bytes),
    );
    let y = BigRational::new_raw(
        BigInt::from_signed_bytes_le(&b.numer.bytes),
        BigInt::from_signed_bytes_le(&b.denom.bytes),
    );
    match num_traits::CheckedDiv::checked_div(&x, &y) {
        Some(z) => Some(Num {
            numer: NumComponent { bytes: z.numer().to_signed_bytes_le() },
            denom: NumComponent { bytes: z.denom().to_signed_bytes_le() },
        }),
        None => None,
    }
}

/// `Ratio`'s `%`: the remainder that goes with division rounded towards
/// zero. It panics on a zero divisor, which the precondition rules out.
#[verifier::external_body]
fn ratio_rem(a: &Num, b: &Num) -> (r: Num)
    requires
        b@ != 0real,
    ensures
        r@ == rem(a@, b@),
{
    let x = BigRational::new_raw(
        BigInt::from_signed_bytes_le(&a.numer.bytes),
        BigInt::from_signed_bytes_le(&a.denom.bytes),
    );
    let y = BigRational::new_raw(
        BigInt::from_signed_bytes_le(&b.numer.bytes),
        BigInt::from_signed_bytes_le(&b.denom.bytes),
    );
    let z = x % y;
    Num {
        numer: NumComponent { bytes: z.numer().to_signed_bytes_le() },
        denom: NumComponent { bytes: z.denom().to_signed_bytes_le() },
    }
}

/// `Ratio::is_integer`: whether the denominator is one.
#[verifier::external_body]
fn ratio_is_integer(a: &Num) -> (r: bool)
    ensures
        r == (a.denom@ == 1),
{
    BigRational::new_raw(
        BigInt::from_signed_bytes_le(&a.numer.bytes),
        BigInt::from_signed_bytes_le(&a.denom.bytes),
    ).is_integer()
}

/// `Ratio`'s `is_zero`: whether the numerator is zero.
#[verifier::external_body]
fn ratio_is_zero(a: &Num) -> (r: bool)
    ensures
        r == (a.numer@ == 0),
{
    BigRational::new_raw(
        BigInt::from_signed_bytes_le(&a.numer.bytes),
        BigInt::from_signed_bytes_le(&a.denom.bytes),
    ).is_zero()
}

/// `Ratio::trunc`: the value rounded towards zero, as a number.
#[verifier::external_body]
fn ratio_trunc(a: &Num) -> (r: Num)
    ensures
        r@ == trunc(a@) as real,
{
    let z = BigRational::new_raw(
        BigInt::from_signed_bytes_le(&a.numer.bytes),
        BigInt::from_signed_bytes_le(&a.denom.bytes),
    ).trunc();
    Num {
        numer: NumComponent { bytes: z.numer().to_signed_bytes_le() },
        denom: NumComponent { bytes: z.denom().to_signed_bytes_le() },
    }
}

/// `Ratio::fract`: the value less its integer part.
#[verifier::external_body]
fn ratio_fract(a: &Num) -> (r: Num)
    ensures
        r@ == fract(a@),
{
    let z = BigRational::new_raw(
        BigInt::from_signed_bytes_le(&a.numer.bytes),
        BigInt::from_signed_bytes_le(&a.denom.bytes),
    ).fract();
    Num {
        numer: NumComponent { bytes: z.numer().to_signed_bytes_le() },
        denom: NumComponent { bytes: z.denom().to_signed_bytes_le() },
    }
}

/// `Ratio::to_integer`: the value rounded towards zero, as an integer.
#[verifier::external_body]
fn ratio_to_integer(a: &Num) -> (r: NumComponent)
    ensures
        r@ == trunc(a@),
{
    let z = BigRational::new_raw(
        BigInt::from_signed_bytes_le(&a.numer.bytes),
        BigInt::from_signed_bytes_le(&a.denom.bytes),
    ).to_integer();
    NumComponent { bytes: z.to_signed_bytes_le() }
}

impl Num {
    #[verifier::type_invariant]
    spec fn lowest_terms(self) -> bool {
        in_lowest_terms(self.numer@, self.denom@)
    }

    /// The numerator of the number in lowest terms.
    pub closed spec fn numer_value(&self) -> int {
        self.numer@
    }

    /// The denominator of the number in lowest terms.
    pub closed spec fn denom_value(&self) -> int {
        self.denom@
    }

    /// The numerator of the number in lowest terms.
    pub fn numer(&self) -> (r: &NumComponent)
        ensures
            r@ == self.numer_value(),
            in_lowest_terms(self.numer_value(), self.denom_value()),
            self@ == self.numer_value() as real / self.denom_value() as real,
    {
        proof {
            use_type_invariant(self);
        }
        &self.numer
    }

    /// The denominator of the number in lowest terms; it is above zero.
    pub fn denom(&self) -> (r: &NumComponent)
        ensures
            r@ == self.denom_value(),
            in_lowest_terms(self.numer_value(), self.denom_value()),
            self@ == self.numer_value() as real / self.denom_value() as real,
    {
        proof {
            use_type_invariant(self);
        }
        &self.denom
    }

    /// The number `numer / denom`.
    pub fn new(numer: NumComponent, denom: NumComponent) -> (r: Num)
        requires
            denom@ != 0,
        ensures
            r@ == numer@ as real / denom@ as real,
    {
        ratio_new(&numer, &denom)
    }

    /// The whole number `v`.
    pub fn from_integer(v: i64) -> (r: Num)
        ensures
            r@ == v as real,
    {
        let n = NumComponent::from(v);
        let d = NumComponent::from(1);
        let r = ratio_new(&n, &d);
        assert(d@ as real == 1real);
        assert(n@ as real == v as real);
        assert(n@ as real / 1real == n@ as real);
        r
    }

    /// The sum of `self` and `rhs`.
    pub fn add(&self, rhs: &Num) -> (r: Num)
        ensures
            r@ == self@ + rhs@,
    {
        ratio_add(self, rhs)
    }

    /// The difference of `self` and `rhs`.
    pub fn subtract(&self, rhs: &Num) -> (r: Num)
        ensures
            r@ == self@ - rhs@,
    {
        ratio_sub(self, rhs)
    }

    /// The product of `self` and `rhs`.
    pub fn multiply(&self, rhs: &Num) -> (r: Num)
        ensures
            r@ == self@ * rhs@,
    {
        ratio_mul(self, rhs)
    }

    /// The quotient of `self` by `rhs`, or `DivisionByZero` when `rhs` is
    /// zero.
    pub fn divide(&self, rhs: &Num) -> (r: Result<Num, MathError>)
        ensures
            rhs@ == 0real ==> r == Err::<Num, MathError>(MathError::DivisionByZero),
            rhs@ != 0real ==> r is Ok && r.unwrap()@ == self@ / rhs@,
    {
        match ratio_checked_div(self, rhs) {
            Some(q) => Ok(q),
            None => Err(MathError::DivisionByZero),
        }
    }

    /// The remainder of `self` by `rhs` that goes with division rounded
    /// towards zero, or `DivisionByZero` when `rhs` is zero.
    pub fn modulo(&self, rhs: &Num) -> (r: Result<Num, MathError>)
        ensures
            rhs@ == 0real ==> r == Err::<Num, MathError>(MathError::DivisionByZero),
            rhs@ != 0real ==> r is Ok && r.unwrap()@ == rem(self@, rhs@),
    {
        if rhs.is_zero() {
            Err(MathError::DivisionByZero)
        } else {
            Ok(ratio_rem(self, rhs))
        }
    }

    /// Whether the number is whole, which is to say that its denominator
    /// in lowest terms is one.
    pub fn is_integer(&self) -> (r: bool)
        ensures
            r == is_integral(self@),
            r == (self.denom_value() == 1),
    {
        proof {
            use_type_invariant(self);
            lemma_whole_in_lowest_terms(self.numer@, self.denom@);
        }
        ratio_is_integer(self)
    }

    /// Whether the number is zero, which is to say that its numerator is
    /// zero.
    pub fn is_zero(&self) -> (r: bool)
        ensures
            r == (self@ == 0real),
            r == (self.numer_value() == 0),
    {
        proof {
            use_type_invariant(self);
            lemma_zero_numerator(self.numer@, self.denom@);
        }
        ratio_is_zero(self)
    }

    /// The integer part, rounded towards zero.
    pub fn truncate(&self) -> (r: Num)
        ensures
            r@ == trunc(self@) as real,
    {
        ratio_trunc(self)
    }

    /// The number less its integer part.
    pub fn fractional_part(&self) -> (r: Num)
        ensures
            r@ == fract(self@),
    {
        ratio_fract(self)
    }

    /// The integer part, rounded towards zero, as an integer.
    pub fn to_integer(&self) -> (r: NumComponent)
        ensures
            r@ == trunc(self@),
    {
        ratio_to_integer(self)
    }
}

} // verus!
