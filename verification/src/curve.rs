//! Parameters of the curves whose points a chip adds.

use vstd::prelude::*;
use crate::limbs::{Limbs, le_value};

verus! {

/// A curve over a prime field: what a chip needs to know of it is the modulus
/// of the field in which its coordinates live.
pub trait EllipticCurve {
    /// The limbs of the modulus of the base field.
    open spec fn modulus_limbs() -> Limbs<u8> {
        arbitrary()
    }

    /// The modulus of the base field.
    fn modulus() -> (m: Limbs<u8>)
        ensures
            m == Self::modulus_limbs(),
    ;
}

/// The modulus of secp256k1 is not zero.
pub proof fn lemma_secp256k1_modulus_positive()
    ensures
        le_value(Secp256k1::modulus_limbs().0@) > 0,
{
    let m = Secp256k1::modulus_limbs().0@;
    assert(m[0] == 0x2f);
    if le_value(m) == 0 {
        crate::limbs::lemma_le_value_zero(m);
    }
}

/// The curve `y² = x³ + 7` over the field of the prime
/// `2²⁵⁶ - 2³² - 977`.
#[derive(Clone, Copy, Debug)]
pub struct Secp256k1;

impl EllipticCurve for Secp256k1 {
    open spec fn modulus_limbs() -> Limbs<u8> {
        Limbs(
            [
                0x2fu8,
                0xfcu8,
                0xffu8,
                0xffu8,
                0xfeu8,
                0xffu8,
                0xffu8,
                0xffu8,
                0xffu8,
                0xffu8,
                0xffu8,
                0xffu8,
                0xffu8,
                0xffu8,
                0xffu8,
                0xffu8,
                0xffu8,
                0xffu8,
                0xffu8,
                0xffu8,
                0xffu8,
                0xffu8,
                0xffu8,
                0xffu8,
                0xffu8,
                0xffu8,
                0xffu8,
                0xffu8,
                0xffu8,
                0xffu8,
                0xffu8,
                0xffu8,
            ],
        )
    }

    fn modulus() -> (m: Limbs<u8>) {
        let m = Limbs(
            [
                0x2fu8,
                0xfcu8,
                0xffu8,
                0xffu8,
                0xfeu8,
                0xffu8,
                0xffu8,
                0xffu8,
                0xffu8,
                0xffu8,
                0xffu8,
                0xffu8,
                0xffu8,
                0xffu8,
                0xffu8,
                0xffu8,
                0xffu8,
                0xffu8,
                0xffu8,
                0xffu8,
                0xffu8,
                0xffu8,
                0xffu8,
                0xffu8,
                0xffu8,
                0xffu8,
                0xffu8,
                0xffu8,
                0xffu8,
                0xffu8,
                0xffu8,
                0xffu8,
            ],
        );
        assert(m.0 =~= Self::modulus_limbs().0);
        m
    }
}

} // verus!
