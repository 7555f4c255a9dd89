//! The byte lookup table: operations on bytes that a chip does not constrain
//! itself but looks up.

use vstd::prelude::*;
use vstd::arithmetic::power2::{pow2, lemma2_to64, lemma_pow2_adds};
use vstd::arithmetic::div_mod::{lemma_fundamental_div_mod, lemma_mod_bound, lemma_div_pos_is_pos};

verus! {

/// An operation of the byte table.
#[derive(Clone, Copy, Debug, PartialEq, Eq, Structural)]
pub enum ByteOpcode {
    /// `a1` is the bitwise exclusive or of `b` and `c`.
    Xor,
    /// `a1` is `b` shifted right by `c` bits, `a2` the bits shifted out.
    ShrCarry,
    /// `b` and `c` are bytes.
    Range,
}

/// One use of the byte table, emitted while a row is populated.
#[derive(Clone, Copy, Debug, PartialEq, Eq, Structural)]
pub struct ByteLookupEvent {
    pub opcode: ByteOpcode,
    pub a1: u32,
    pub a2: u32,
    pub b: u32,
    pub c: u32,
}

/// Two to the power `k`, for `k` from zero to thirty-two.
#[verifier::opaque]
pub open spec fn two_pow(k: int) -> int {
    if k <= 0 {
        1
    } else if k == 1 {
        0x2
    } else if k == 2 {
        0x4
    } else if k == 3 {
        0x8
    } else if k == 4 {
        0x10
    } else if k == 5 {
        0x20
    } else if k == 6 {
        0x40
    } else if k == 7 {
        0x80
    } else if k == 8 {
        0x100
    } else if k == 9 {
        0x200
    } else if k == 10 {
        0x400
    } else if k == 11 {
        0x800
    } else if k == 12 {
        0x1000
    } else if k == 13 {
        0x2000
    } else if k == 14 {
        0x4000
    } else if k == 15 {
        0x8000
    } else if k == 16 {
        0x10000
    } else if k == 17 {
        0x20000
    } else if k == 18 {
        0x40000
    } else if k == 19 {
        0x80000
    } else if k == 20 {
        0x100000
    } else if k == 21 {
        0x200000
    } else if k == 22 {
        0x400000
    } else if k == 23 {
        0x800000
    } else if k == 24 {
        0x1000000
    } else if k == 25 {
        0x2000000
    } else if k == 26 {
        0x4000000
    } else if k == 27 {
        0x8000000
    } else if k == 28 {
        0x10000000
    } else if k == 29 {
        0x20000000
    } else if k == 30 {
        0x40000000
    } else if k == 31 {
        0x80000000
    } else {
        0x1_0000_0000
    }
}

/// The table of powers agrees with the power function.
pub proof fn lemma_two_pow(k: int)
    requires
        0 <= k <= 32,
    ensures
        two_pow(k) == pow2(k as nat),
        two_pow(k) > 0,
{
    reveal(two_pow);
    lemma2_to64();
}

/// The powers at the byte boundaries of a word.
pub proof fn lemma_two_pow_values()
    ensures
        two_pow(0) == 1,
        two_pow(8) == 256,
        two_pow(16) == 65536,
        two_pow(24) == 16777216,
        two_pow(32) == 0x1_0000_0000,
{
    reveal(two_pow);
}

/// A power of two with an exponent up to eight is at most two hundred and
/// fifty-six.
pub proof fn lemma_two_pow_byte(k: int)
    requires
        0 <= k <= 8,
    ensures
        1 <= two_pow(k) <= 256,
{
    reveal(two_pow);
}

/// Powers of two multiply by adding exponents.
pub proof fn lemma_two_pow_adds(j: int, k: int)
    requires
        0 <= j,
        0 <= k,
        j + k <= 32,
    ensures
        two_pow(j) * two_pow(k) == two_pow(j + k),
{
    lemma_two_pow(j);
    lemma_two_pow(k);
    lemma_two_pow(j + k);
    lemma_pow2_adds(j as nat, k as nat);
}

/// Bitwise exclusive or of two bytes.
pub open spec fn xor_byte(b: int, c: int) -> int {
    ((b as u32) ^ (c as u32)) as int
}

/// `b` shifted right by `c` modulo eight bits.
pub open spec fn shr_byte(b: int, c: int) -> int {
    b / two_pow(c % 8)
}

/// The low `c` modulo eight bits of `b`, which a right shift drops.
pub open spec fn carry_byte(b: int, c: int) -> int {
    b % two_pow(c % 8)
}

/// Whether `(a1, a2, b, c)` is a row of the table of `opcode`.
pub open spec fn byte_row(opcode: ByteOpcode, a1: int, a2: int, b: int, c: int) -> bool {
    &&& 0 <= b < 256
    &&& 0 <= c < 256
    &&& match opcode {
        ByteOpcode::Xor => a1 == xor_byte(b, c) && a2 == 0,
        ByteOpcode::ShrCarry => a1 == shr_byte(b, c) && a2 == carry_byte(b, c),
        ByteOpcode::Range => a1 == 0 && a2 == 0,
    }
}

/// Whether a lookup sent with `multiplicity` is answered by the table, in the
/// field of characteristic `p`: a lookup sent zero times asks nothing.
pub open spec fn byte_lookup_holds(
    opcode: ByteOpcode,
    a1: int,
    a2: int,
    b: int,
    c: int,
    multiplicity: int,
    p: int,
) -> bool {
    p > 0 && (multiplicity % p == 0 || byte_row(opcode, a1 % p, a2 % p, b % p, c % p))
}

/// Two to the power `k`.
pub fn two_to(k: u32) -> (r: u64)
    requires
        k <= 32,
    ensures
        r as int == two_pow(k as int),
{
    let r: u64 = 1u64 << k;
    proof {
        reveal(two_pow);
        assert(r as int == two_pow(k as int)) by (bit_vector)
            requires
                r == 1u64 << k,
                k <= 32,
        ;
    }
    r
}

/// Shifts `input` right by `rotation` modulo eight bits and returns the
/// shifted byte with the bits that fell off.
pub fn shr_carry(input: u8, rotation: u8) -> (r: (u8, u8))
    ensures
        r.0 as int == shr_byte(input as int, rotation as int),
        r.1 as int == carry_byte(input as int, rotation as int),
{
    let k: u32 = (rotation % 8) as u32;
    let m: u64 = two_to(k);
    let x: u64 = input as u64;
    proof {
        lemma_two_pow_byte(k as int);
        lemma_fundamental_div_mod(x as int, m as int);
        lemma_mod_bound(x as int, m as int);
        lemma_div_pos_is_pos(x as int, m as int);
        assert(x / m <= x) by (nonlinear_arith)
            requires
                x == m * (x / m) + x % m,
                0 <= x % m,
                0 <= x / m,
                m >= 1,
        ;
    }
    ((x / m) as u8, (x % m) as u8)
}

/// Whether `(a1, a2, b, c)` is a row of the table of `opcode`.
pub fn is_byte_row(opcode: ByteOpcode, a1: u32, a2: u32, b: u32, c: u32) -> (r: bool)
    ensures
        r == byte_row(opcode, a1 as int, a2 as int, b as int, c as int),
{
    if b >= 256 || c >= 256 {
        return false;
    }
    match opcode {
        ByteOpcode::Xor => a1 == (b ^ c) && a2 == 0,
        ByteOpcode::ShrCarry => {
            let (shift, carry) = shr_carry(b as u8, c as u8);
            a1 == shift as u32 && a2 == carry as u32
        },
        ByteOpcode::Range => a1 == 0 && a2 == 0,
    }
}

} // verus!
