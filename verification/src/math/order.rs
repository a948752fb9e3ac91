//! Equality and order of numbers: by value, which for numbers in lowest
//! terms is the same as by numerator and denominator.

use crate::math::integer::NumComponent;
use crate::math::number::Num;
use core::cmp::Ordering;
use num_bigint::BigInt;
use num_rational::BigRational;
use vstd::prelude::*;
use vstd::std_specs::cmp::{PartialEqSpecImpl, PartialOrdSpecImpl};

verus! {

/// How `a` stands to `b`.
pub open spec fn order_of(a: real, b: real) -> Ordering {
    if a < b {
        Ordering::Less
    } else if a == b {
        Ordering::Equal
    } else {
        Ordering::Greater
    }
}

/// `BigInt`'s `==`: whether two integers have the same value.
#[verifier::external_body]
fn bigint_eq(a: &NumComponent, b: &NumComponent) -> (r: bool)
    ensures
        r == (a@ == b@),
{
    BigInt::from_signed_bytes_le(&a.bytes) == BigInt::from_signed_bytes_le(&b.bytes)
}

/// `Ratio`'s `==`: whether two numbers have the same value.
#[verifier::external_body]
fn ratio_eq(a: &Num, b: &Num) -> (r: bool)
    ensures
        r == (a@ == b@),
{
    let x = BigRational::new_raw(
        BigInt::from_signed_bytes_le(&a.numer.bytes),
        BigInt::from_signed_bytes_le(&a.denom.bytes),
    );
    let y = BigRational::new_raw(
        BigInt::from_signed_bytes_le(&b.numer.bytes),
        BigInt::from_signed_bytes_le(&b.denom.bytes),
    );
    x == y
}

/// `Ratio`'s `cmp`: how the value of one number stands to that of another.
#[verifier::external_body]
fn ratio_order(a: &Num, b: &Num) -> (r: Ordering)
    ensures
        r == order_of(a@, b@),
{
    let x = BigRational::new_raw(
        BigInt::from_signed_bytes_le(&a.numer.bytes),
        BigInt::from_signed_bytes_le(&a.denom.bytes),
    );
    let y = BigRational::new_raw(
        BigInt::from_signed_bytes_le(&b.numer.bytes),
        BigInt::from_signed_bytes_le(&b.denom.bytes),
    );
    x.cmp(&y)
}

impl PartialEq for NumComponent {
    fn eq(&self, other: &Self) -> (r: bool) {
        bigint_eq(self, other)
    }
}

impl PartialEqSpecImpl for NumComponent {
    open spec fn obeys_eq_spec() -> bool {
        true
    }

    open spec fn eq_spec(&self, other: &Self) -> bool {
        self@ == other@
    }
}

impl Eq for NumComponent {

}

impl PartialEq for Num {
    fn eq(&self, other: &Self) -> (r: bool) {
        ratio_eq(self, other)
    }
}

impl PartialEqSpecImpl for Num {
    open spec fn obeys_eq_spec() -> bool {
        true
    }

    open spec fn eq_spec(&self, other: &Self) -> bool {
        self@ == other@
    }
}

impl Eq for Num {

}

impl PartialOrd for Num {
    fn partial_cmp(&self, other: &Self) -> (r: Option<Ordering>) {
        Some(ratio_order(self, other))
    }
}

impl PartialOrdSpecImpl for Num {
    open spec fn obeys_partial_cmp_spec() -> bool {
        true
    }

    open spec fn partial_cmp_spec(&self, other: &Self) -> Option<Ordering> {
        Some(order_of(self@, other@))
    }
}

} // verus!
