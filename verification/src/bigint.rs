//! Arithmetic on big integers, which an arbitrary-precision library does.
//!
//! A big integer crosses this boundary as its little-endian bytes.

use vstd::prelude::*;
use vstd::arithmetic::power::pow;
use crate::limbs::le_value;
use num::BigUint;

verus! {

/// The sum of two big integers.
///
/// Calls the addition of `num::BigUint` on the integers that `a` and `b`
/// spell; trusted to return the bytes of their sum.
#[verifier::external_body]
pub(crate) fn sum(a: &Vec<u8>, b: &Vec<u8>) -> (r: Vec<u8>)
    ensures
        le_value(r@) == le_value(a@) + le_value(b@),
{
    (BigUint::from_bytes_le(a) + BigUint::from_bytes_le(b)).to_bytes_le()
}

/// The difference of two big integers, the second not above the first.
///
/// Calls the subtraction of `num::BigUint`, which does not return when the
/// difference would be negative; trusted to return the bytes of the
/// difference otherwise.
#[verifier::external_body]
pub(crate) fn difference(a: &Vec<u8>, b: &Vec<u8>) -> (r: Vec<u8>)
    requires
        le_value(b@) <= le_value(a@),
    ensures
        le_value(r@) == le_value(a@) - le_value(b@),
{
    (BigUint::from_bytes_le(a) - BigUint::from_bytes_le(b)).to_bytes_le()
}

/// The product of two big integers.
///
/// Calls the multiplication of `num::BigUint`; trusted to return the bytes of
/// the product.
#[verifier::external_body]
pub(crate) fn product(a: &Vec<u8>, b: &Vec<u8>) -> (r: Vec<u8>)
    ensures
        le_value(r@) == le_value(a@) * le_value(b@),
{
    (BigUint::from_bytes_le(a) * BigUint::from_bytes_le(b)).to_bytes_le()
}

/// The quotient of a big integer by a positive one, rounded down.
///
/// Calls the division of `num::BigUint`, which does not return for a zero
/// divisor; trusted to return the bytes of the quotient otherwise.
#[verifier::external_body]
pub(crate) fn quotient(a: &Vec<u8>, m: &Vec<u8>) -> (r: Vec<u8>)
    requires
        le_value(m@) > 0,
    ensures
        le_value(r@) == le_value(a@) / le_value(m@),
{
    (BigUint::from_bytes_le(a) / BigUint::from_bytes_le(m)).to_bytes_le()
}

/// The remainder of a big integer by a positive one.
///
/// Calls the remainder of `num::BigUint`, which does not return for a zero
/// divisor; trusted to return the bytes of the remainder otherwise.
#[verifier::external_body]
pub(crate) fn remainder(a: &Vec<u8>, m: &Vec<u8>) -> (r: Vec<u8>)
    requires
        le_value(m@) > 0,
    ensures
        le_value(r@) == le_value(a@) % le_value(m@),
{
    (BigUint::from_bytes_le(a) % BigUint::from_bytes_le(m)).to_bytes_le()
}

/// A power of a big integer, reduced by a positive modulus.
///
/// Calls `num::BigUint::modpow`, which does not return for a zero modulus;
/// trusted to return the bytes of `base` to the power `exponent`, reduced by
/// `m`.
#[verifier::external_body]
pub(crate) fn power_mod(base: &Vec<u8>, exponent: &Vec<u8>, m: &Vec<u8>) -> (r: Vec<u8>)
    requires
        le_value(m@) > 0,
    ensures
        le_value(r@) == pow(le_value(base@) as int, le_value(exponent@)) % (le_value(m@) as int),
{
    BigUint::from_bytes_le(base).modpow(
        &BigUint::from_bytes_le(exponent),
        &BigUint::from_bytes_le(m),
    ).to_bytes_le()
}

} // verus!
