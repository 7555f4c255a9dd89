//! Big integers as little-endian bytes, and the fixed number of byte limbs in
//! which a trace row holds one.

use vstd::prelude::*;
use vstd::arithmetic::power::{pow, lemma_pow0, lemma_pow_positive, lemma_pow_adds, lemma_pow1};
use vstd::arithmetic::mul::{lemma_mul_is_distributive_add, lemma_mul_is_associative};

verus! {

/// Number of byte limbs of a big integer in a trace row.
pub const NUM_LIMBS: usize = 32;

/// A big integer of a trace row: thirty-two limbs, least significant first.
#[derive(Clone, Copy, Debug)]
pub struct Limbs<T>(pub [T; 32]);

/// The integer that the bytes `s` spell, least significant first.
pub open spec fn le_value(s: Seq<u8>) -> nat
    decreases s.len(),
{
    if s.len() == 0 {
        0
    } else {
        s[0] as nat + 256 * le_value(s.drop_first())
    }
}

/// Two hundred and fifty-six to the power `n`.
pub open spec fn pow256(n: nat) -> nat {
    pow(256, n) as nat
}

/// One more than the largest integer of thirty-two limbs.
pub open spec fn limbs_bound() -> nat {
    pow256(32)
}

/// Powers of the base are positive and grow by the base.
pub proof fn lemma_pow256(n: nat)
    ensures
        pow256(n) > 0,
        pow256(n) == pow(256, n),
        pow256(n + 1) == 256 * pow256(n),
        pow256(0) == 1,
{
    lemma_pow_positive(256, n);
    lemma_pow_positive(256, n + 1);
    lemma_pow0(256);
    lemma_pow1(256);
    lemma_pow_adds(256, 1, n);
}

/// The bytes `s` spell an integer below the base to the power of their
/// number.
pub proof fn lemma_le_value_bound(s: Seq<u8>)
    ensures
        le_value(s) < pow256(s.len()),
    decreases s.len(),
{
    if s.len() == 0 {
        lemma_pow256(0);
    } else {
        lemma_le_value_bound(s.drop_first());
        lemma_pow256((s.len() - 1) as nat);
    }
}

/// The value of a concatenation: the second part counts from the power of the
/// length of the first.
pub proof fn lemma_le_value_concat(s: Seq<u8>, t: Seq<u8>)
    ensures
        le_value(s + t) == le_value(s) + pow256(s.len()) * le_value(t),
    decreases s.len(),
{
    if s.len() == 0 {
        lemma_pow256(0);
        assert(s + t =~= t);
    } else {
        let rest = s.drop_first();
        lemma_le_value_concat(rest, t);
        assert((s + t).drop_first() =~= rest + t);
        lemma_pow256(rest.len());
        assert(256 * (pow256(rest.len()) * le_value(t)) == pow256(s.len()) * le_value(t)) by {
            lemma_mul_is_associative(256, pow256(rest.len()) as int, le_value(t) as int);
        }
        assert(256 * (le_value(rest) + pow256(rest.len()) * le_value(t)) == 256 * le_value(rest)
            + 256 * (pow256(rest.len()) * le_value(t))) by {
            lemma_mul_is_distributive_add(
                256,
                le_value(rest) as int,
                (pow256(rest.len()) * le_value(t)) as int,
            );
        }
    }
}

/// Bytes spell zero exactly when all of them are zero.
pub proof fn lemma_le_value_zero(s: Seq<u8>)
    ensures
        le_value(s) == 0 <==> forall|i: int| 0 <= i < s.len() ==> s[i] == 0,
    decreases s.len(),
{
    if s.len() > 0 {
        let rest = s.drop_first();
        lemma_le_value_zero(rest);
        if le_value(s) == 0 {
            assert forall|i: int| 0 <= i < s.len() implies s[i] == 0 by {
                if i > 0 {
                    assert(s[i] == rest[i - 1]);
                }
            }
        }
        if forall|i: int| 0 <= i < s.len() ==> s[i] == 0 {
            assert forall|i: int| 0 <= i < rest.len() implies rest[i] == 0 by {
                assert(rest[i] == s[i + 1]);
            }
        }
    }
}

/// Two byte strings of one length that spell one integer are equal.
pub proof fn lemma_le_value_injective(s: Seq<u8>, t: Seq<u8>)
    requires
        s.len() == t.len(),
        le_value(s) == le_value(t),
    ensures
        s == t,
    decreases s.len(),
{
    if s.len() > 0 {
        assert(s[0] == t[0]);
        lemma_le_value_injective(s.drop_first(), t.drop_first());
        assert(s =~= seq![s[0]] + s.drop_first());
        assert(t =~= seq![t[0]] + t.drop_first());
    } else {
        assert(s =~= t);
    }
}

/// The `k` lowest bytes of `n`, least significant first.
pub open spec fn digits(n: nat, k: nat) -> Seq<u8>
    decreases k,
{
    if k == 0 {
        Seq::empty()
    } else {
        seq![(n % 256) as u8] + digits(n / 256, (k - 1) as nat)
    }
}

/// An integer below the base to the power `k` is spelled by its `k` lowest
/// bytes.
pub proof fn lemma_digits(n: nat, k: nat)
    requires
        n < pow256(k),
    ensures
        digits(n, k).len() == k,
        le_value(digits(n, k)) == n,
    decreases k,
{
    if k == 0 {
        lemma_pow256(0);
    } else {
        lemma_pow256((k - 1) as nat);
        lemma_digits(n / 256, (k - 1) as nat);
        let d = digits(n, k);
        assert(d.drop_first() =~= digits(n / 256, (k - 1) as nat));
    }
}

impl Limbs<u8> {
    /// The integer that the limbs spell.
    pub open spec fn value(self) -> nat {
        le_value(self.0@)
    }

    /// The limbs of zero.
    pub fn zero() -> (r: Self)
        ensures
            r.value() == 0,
            forall|i: int| 0 <= i < 32 ==> r.0[i] == 0,
    {
        let r = Limbs([0u8; 32]);
        proof {
            lemma_le_value_zero(r.0@);
        }
        r
    }

    /// The limbs of the integer that `bytes` spell, if it is below the bound
    /// of thirty-two limbs.
    pub fn from_bytes(bytes: &Vec<u8>) -> (r: Option<Self>)
        ensures
            r is Some <==> le_value(bytes@) < limbs_bound(),
            r matches Some(limbs) ==> limbs.value() == le_value(bytes@),
    {
        let mut out: [u8; 32] = [0u8; 32];
        let n: usize = bytes.len();
        let mut i: usize = 0;
        while i < 32 && i < n
            invariant
                i <= 32,
                i <= n,
                n == bytes.len(),
                forall|j: int| 0 <= j < i ==> out[j] == bytes[j],
                forall|j: int| i <= j < 32 ==> out[j] == 0,
            decreases 32 - i,
        {
            out[i] = bytes[i];
            i += 1;
        }
        let mut high_is_zero: bool = true;
        let mut k: usize = 32;
        while k < n
            invariant
                32 <= k,
                n == bytes.len(),
                n > 32 ==> k <= n,
                high_is_zero <==> forall|j: int| 32 <= j < k && j < n ==> bytes[j] == 0,
            decreases n - k,
        {
            if bytes[k] != 0 {
                high_is_zero = false;
            }
            k += 1;
        }
        proof {
            let s = bytes@;
            let low = out@;
            lemma_le_value_bound(low);
            if n <= 32 {
                let zeros = low.skip(n as int);
                assert(low =~= s + zeros);
                lemma_le_value_concat(s, zeros);
                lemma_le_value_zero(zeros);
                assert(pow256(s.len()) * 0 == 0);
            } else {
                let high = s.skip(32);
                assert(s =~= low + high);
                lemma_le_value_concat(low, high);
                lemma_le_value_zero(high);
                lemma_pow256(32);
                if high_is_zero {
                    assert forall|j: int| 0 <= j < high.len() implies high[j] == 0 by {
                        assert(high[j] == s[j + 32]);
                    }
                    assert(pow256(32) * 0 == 0);
                } else {
                    assert(le_value(high) >= 1);
                    assert(pow256(32) * le_value(high) >= pow256(32)) by (nonlinear_arith)
                        requires
                            le_value(high) >= 1,
                            pow256(32) > 0,
                    ;
                }
            }
        }
        if high_is_zero {
            Some(Limbs(out))
        } else {
            None
        }
    }

    /// The limbs as a vector of bytes.
    pub fn to_bytes(&self) -> (bytes: Vec<u8>)
        ensures
            bytes@ == self.0@,
    {
        let mut bytes: Vec<u8> = Vec::new();
        let mut i: usize = 0;
        while i < 32
            invariant
                i <= 32,
                bytes@ == self.0@.take(i as int),
            decreases 32 - i,
        {
            bytes.push(self.0[i]);
            assert(self.0@.take(i as int + 1) =~= self.0@.take(i as int).push(self.0@[i as int]));
            i += 1;
        }
        assert(self.0@.take(32) =~= self.0@);
        bytes
    }

    /// Whether two big integers are equal.
    pub fn same(&self, other: &Limbs<u8>) -> (r: bool)
        ensures
            r == (self.value() == other.value()),
    {
        let mut i: usize = 0;
        while i < 32
            invariant
                i <= 32,
                forall|j: int| 0 <= j < i ==> self.0[j] == other.0[j],
            decreases 32 - i,
        {
            if self.0[i] != other.0[i] {
                proof {
                    if self.value() == other.value() {
                        lemma_le_value_injective(self.0@, other.0@);
                    }
                }
                return false;
            }
            i += 1;
        }
        assert(self.0@ =~= other.0@);
        true
    }
}

} // verus!
