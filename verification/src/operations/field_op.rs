//! Addition, subtraction, multiplication and division of big integers modulo
//! a modulus that the caller supplies.
//!
//! The columns hold the result `r` and a quotient `q` with
//! `x · y = q · m + t` (or `x + y = q · m + t`), where for addition and
//! multiplication `x`, `y` are the operands and `t` is the result, and for
//! subtraction and division `x` is the result, `y` the second operand and `t`
//! the first. The field cannot check this over the integers, so it is checked
//! limb by limb: read as polynomials in the limb base, the two sides differ by
//! a polynomial with a root at the base, and the columns hold its quotient by
//! `X - 256`.

use vstd::prelude::*;
use vstd::arithmetic::power::pow;
use crate::bigint::{sum, difference, product, quotient, remainder, power_mod};
use crate::builder::{ConstraintBuilder, vanishes, seq_values};
use crate::evaluator::RowEvaluator;
use crate::trace::{append_array, read_array};
use crate::limbs::{
    Limbs, le_value, limbs_bound, digits, lemma_le_value_bound, lemma_le_value_injective,
    lemma_digits,
};
use vstd::arithmetic::div_mod::{lemma_small_mod, lemma_fundamental_div_mod};

verus! {

/// Number of coefficients of the quotient by `X - 256`.
pub const NUM_WITNESS_LIMBS: usize = 62;

/// What is added to a coefficient of the quotient to store it without sign.
pub const WITNESS_OFFSET: u32 = 32768;

/// An operation of the field.
#[derive(Clone, Copy, Debug, PartialEq, Eq, Structural)]
pub enum FieldOperation {
    Add,
    Mul,
    Sub,
    Div,
}

/// Columns of one operation: the limbs of the result and of the quotient by
/// the modulus, and the low and high bytes of the coefficients, shifted to be
/// positive, of the quotient by `X - 256`.
#[derive(Clone, Copy, Debug)]
pub struct FieldOpCols<T> {
    pub result: Limbs<T>,
    pub carry: Limbs<T>,
    pub witness_low: [T; 62],
    pub witness_high: [T; 62],
}

impl<T: Copy> FieldOpCols<T> {
    /// The cells of the columns in the order of a row.
    pub open spec fn flat(self) -> Seq<T> {
        self.result.0@ + self.carry.0@ + self.witness_low@ + self.witness_high@
    }

    /// The columns whose cells are the cells of `row` from `start` on.
    pub fn from_row(row: &[T], start: usize) -> (cols: Self)
        requires
            start + 188 <= row.len(),
        ensures
            cols.flat() == row@.subrange(start as int, start + 188),
    {
        let cols = FieldOpCols {
            result: Limbs(read_array(row, start)),
            carry: Limbs(read_array(row, start + 32)),
            witness_low: read_array(row, start + 64),
            witness_high: read_array(row, start + 126),
        };
        assert(cols.flat() =~= row@.subrange(start as int, start + 188));
        cols
    }

    /// Appends the cells of the columns to `row`.
    pub fn append_to(&self, row: &mut Vec<T>)
        ensures
            final(row)@ == old(row)@ + self.flat(),
            self.flat().len() == 188,
    {
        append_array(&self.result.0, row);
        append_array(&self.carry.0, row);
        append_array(&self.witness_low, row);
        append_array(&self.witness_high, row);
        assert(row@ =~= old(row)@ + self.flat());
    }
}

/// Element `k` of `s`, and zero beyond its ends.
pub open spec fn at(s: Seq<int>, k: int) -> int {
    if 0 <= k < s.len() {
        s[k]
    } else {
        0
    }
}

/// The first `n` terms of coefficient `k` of the product of the polynomials
/// `a` and `b`.
pub open spec fn conv(a: Seq<int>, b: Seq<int>, k: int, n: int) -> int
    decreases n,
{
    if n <= 0 {
        0
    } else {
        conv(a, b, k, n - 1) + at(a, n - 1) * at(b, k - (n - 1))
    }
}

/// Coefficient `k` of `x · y - t - q · m`, or of `x + y - t - q · m`.
pub open spec fn vanishing_coeff(
    x: Seq<int>,
    y: Seq<int>,
    t: Seq<int>,
    q: Seq<int>,
    m: Seq<int>,
    multiply: bool,
    k: int,
) -> int {
    (if multiply {
        conv(x, y, k, 32)
    } else {
        at(x, k) + at(y, k)
    }) - at(t, k) - conv(q, m, k, 32)
}

/// Coefficient `k` of the quotient by `X - 256` that the witness columns
/// store.
pub open spec fn witness_coeff(low: Seq<int>, high: Seq<int>, k: int) -> int {
    if 0 <= k < 62 {
        low[k] + 256 * high[k] - 32768
    } else {
        0
    }
}

/// The identity of coefficient `k`: the vanishing polynomial is the stored
/// quotient times `X - 256`.
pub open spec fn coefficient_vanishes(
    x: Seq<int>,
    y: Seq<int>,
    t: Seq<int>,
    q: Seq<int>,
    m: Seq<int>,
    low: Seq<int>,
    high: Seq<int>,
    multiply: bool,
    k: int,
    p: int,
) -> bool {
    vanishes(
        vanishing_coeff(x, y, t, q, m, multiply, k) - (witness_coeff(low, high, k - 1) - 256
            * witness_coeff(low, high, k)),
        p,
    )
}

/// The identities of the limbs: one for each of the sixty-three coefficients.
pub open spec fn limb_relation(
    x: Seq<int>,
    y: Seq<int>,
    t: Seq<int>,
    q: Seq<int>,
    m: Seq<int>,
    low: Seq<int>,
    high: Seq<int>,
    multiply: bool,
    p: int,
) -> bool {
    forall|k: int|
        0 <= k < 63 ==> #[trigger] coefficient_vanishes(x, y, t, q, m, low, high, multiply, k, p)
}

/// The identities of one operation on the limbs `a` and `b` of the operands.
pub open spec fn field_op_relation(
    a: Seq<int>,
    b: Seq<int>,
    result: Seq<int>,
    carry: Seq<int>,
    low: Seq<int>,
    high: Seq<int>,
    m: Seq<int>,
    op: FieldOperation,
    p: int,
) -> bool {
    match op {
        FieldOperation::Add => limb_relation(a, b, result, carry, m, low, high, false, p),
        FieldOperation::Mul => limb_relation(a, b, result, carry, m, low, high, true, p),
        FieldOperation::Sub => limb_relation(result, b, a, carry, m, low, high, false, p),
        FieldOperation::Div => limb_relation(result, b, a, carry, m, low, high, true, p),
    }
}

/// Bytes as integers.
pub open spec fn byte_ints(s: Seq<u8>) -> Seq<int> {
    Seq::new(s.len(), |i: int| s[i] as int)
}

/// Coefficient `k` of the quotient of the polynomial `v` by `X - 256`,
/// computed from the constant term up.
pub open spec fn quotient_coeff(v: Seq<int>, k: int) -> int
    decreases k + 1,
{
    if k < 0 {
        0
    } else {
        (quotient_coeff(v, k - 1) - v[k]) / 256
    }
}

/// Whether step `k` of the division of `v` by `X - 256` leaves no remainder
/// and a coefficient that the witness columns can store.
pub open spec fn step_exact(v: Seq<int>, k: int) -> bool {
    &&& (quotient_coeff(v, k - 1) - v[k]) % 256 == 0
    &&& -32768 <= quotient_coeff(v, k) < 32768
}

/// Whether `X - 256` divides the polynomial `v` of sixty-three coefficients
/// with a quotient that the witness columns can store.
pub open spec fn division_exact(v: Seq<int>) -> bool {
    &&& forall|k: int| 0 <= k < 62 ==> #[trigger] step_exact(v, k)
    &&& v[62] == quotient_coeff(v, 61)
}

/// The thirty-two limbs of an integer below their bound.
pub open spec fn limbs_of(n: nat) -> Seq<u8> {
    choose|s: Seq<u8>| s.len() == 32 && le_value(s) == n
}

/// Thirty-two limbs are the limbs of the integer they spell.
pub proof fn lemma_limbs_of(s: Seq<u8>)
    requires
        s.len() == 32,
    ensures
        limbs_of(le_value(s)) == s,
{
    let c = limbs_of(le_value(s));
    assert(c.len() == 32 && le_value(c) == le_value(s));
    lemma_le_value_injective(c, s);
}

/// Whether an operation multiplies: division is checked as a product.
pub open spec fn multiplies(op: FieldOperation) -> bool {
    op == FieldOperation::Mul || op == FieldOperation::Div
}

/// Whether the result of an operation stands on the left of the identity
/// that is checked: subtraction and division are checked backwards.
pub open spec fn reversed(op: FieldOperation) -> bool {
    op == FieldOperation::Sub || op == FieldOperation::Div
}

/// The exponent that inverts modulo a prime `m`.
pub open spec fn inverse_exponent(m: nat) -> nat {
    if m >= 2 {
        (m - 2) as nat
    } else {
        0
    }
}

/// The result of an operation on `a` and `b` modulo a positive `m`: for a
/// division by zero it is zero.
pub open spec fn op_result(a: nat, b: nat, m: nat, op: FieldOperation) -> nat {
    match op {
        FieldOperation::Add => (a + b) % m,
        FieldOperation::Mul => (a * b) % m,
        FieldOperation::Sub => (a + (m - b % m) as nat) % m,
        FieldOperation::Div => (a * ((pow(b as int, inverse_exponent(m)) % (m as int)) as nat))
            % m,
    }
}

/// The left side of the identity that is checked for an operation with
/// result `r`: a sum or a product over the integers.
pub open spec fn checked_side(a: nat, b: nat, r: nat, op: FieldOperation) -> nat {
    let x = if reversed(op) {
        r
    } else {
        a
    };
    if multiplies(op) {
        x * b
    } else {
        x + b
    }
}

/// What the left side must be congruent to: the result, or for subtraction
/// and division the first operand.
pub open spec fn checked_target(a: nat, r: nat, op: FieldOperation) -> nat {
    if reversed(op) {
        a
    } else {
        r
    }
}

/// The vanishing polynomial of an operation with result `r` and quotient `q`.
pub open spec fn vanishing_poly(
    a: Seq<u8>,
    b: Seq<u8>,
    r: Seq<u8>,
    q: Seq<u8>,
    m: Seq<u8>,
    op: FieldOperation,
) -> Seq<int> {
    Seq::new(
        63,
        |k: int|
            vanishing_coeff(
                byte_ints(
                    if reversed(op) {
                        r
                    } else {
                        a
                    },
                ),
                byte_ints(b),
                byte_ints(
                    if reversed(op) {
                        a
                    } else {
                        r
                    },
                ),
                byte_ints(q),
                byte_ints(m),
                multiplies(op),
                k,
            ),
    )
}

/// The vanishing polynomial of an operation on the limbs `a` and `b` modulo
/// the limbs `m`.
pub open spec fn op_vanishing(a: Seq<u8>, b: Seq<u8>, m: Seq<u8>, op: FieldOperation) -> Seq<int> {
    let r = op_result(le_value(a), le_value(b), le_value(m), op);
    let q = checked_side(le_value(a), le_value(b), r, op) / le_value(m);
    vanishing_poly(a, b, limbs_of(r), limbs_of(q), m, op)
}

/// Whether the columns can witness an operation on the limbs `a` and `b`
/// modulo the limbs `m`: the modulus is not zero; for a subtraction or a
/// division, the result gives back the first operand; and the quotient by
/// the modulus fits in the limbs.
pub open spec fn field_op_defined(a: Seq<u8>, b: Seq<u8>, m: Seq<u8>, op: FieldOperation) -> bool {
    let r = op_result(le_value(a), le_value(b), le_value(m), op);
    let side = checked_side(le_value(a), le_value(b), r, op);
    &&& le_value(m) > 0
    &&& side % le_value(m) == checked_target(le_value(a), r, op)
    &&& side / le_value(m) < limbs_bound()
}

/// The vanishing polynomial of a defined operation divides by `X - 256`
/// with coefficients that the witness columns can store.
pub proof fn lemma_op_vanishing_exact(a: Seq<u8>, b: Seq<u8>, m: Seq<u8>, op: FieldOperation)
    requires
        a.len() == 32,
        b.len() == 32,
        m.len() == 32,
        field_op_defined(a, b, m, op),
    ensures
        division_exact(op_vanishing(a, b, m, op)),
{
    let mv = le_value(m);
    let rv = op_result(le_value(a), le_value(b), mv, op);
    let side = checked_side(le_value(a), le_value(b), rv, op);
    let qv = side / mv;
    lemma_le_value_bound(m);
    vstd::arithmetic::div_mod::lemma_mod_bound(side as int, mv as int);
    lemma_result_below_modulus(le_value(a), le_value(b), mv, op);
    lemma_limbs_exist(rv);
    lemma_limbs_exist(qv);
    lemma_fundamental_div_mod(side as int, mv as int);
    let r = limbs_of(rv);
    let q = limbs_of(qv);
    let x = if reversed(op) {
        r
    } else {
        a
    };
    let t = if reversed(op) {
        a
    } else {
        r
    };
    assert(mv * qv == qv * mv) by (nonlinear_arith);
    crate::operations::limb_poly::lemma_vanishing_is_exact(x, b, t, q, m, multiplies(op));
    assert(op_vanishing(a, b, m, op) =~= crate::operations::limb_poly::vanishing_seq(
        x,
        b,
        t,
        q,
        m,
        multiplies(op),
    ));
}

/// When an operation on reduced operands is defined: an addition, a
/// multiplication and a subtraction always; a division where the result
/// times the divisor gives back the dividend, as it does for zero divided by
/// zero.
pub proof fn lemma_reduced_operands_defined(a: Seq<u8>, b: Seq<u8>, m: Seq<u8>, op: FieldOperation)
    requires
        m.len() == 32,
        le_value(a) < le_value(m),
        le_value(b) < le_value(m),
    ensures
        op != FieldOperation::Div ==> field_op_defined(a, b, m, op),
        op == FieldOperation::Div ==> (field_op_defined(a, b, m, op) <==> (op_result(
            le_value(a),
            le_value(b),
            le_value(m),
            op,
        ) * le_value(b)) % le_value(m) == le_value(a)),
        op == FieldOperation::Div && le_value(a) == 0 && le_value(b) == 0 ==> field_op_defined(
            a,
            b,
            m,
            op,
        ),
{
    let av = le_value(a) as int;
    let bv = le_value(b) as int;
    let mv = le_value(m) as int;
    let rv = op_result(le_value(a), le_value(b), le_value(m), op) as int;
    let side = checked_side(le_value(a), le_value(b), rv as nat, op) as int;
    lemma_le_value_bound(m);
    lemma_result_below_modulus(le_value(a), le_value(b), le_value(m), op);
    // The quotient is below the modulus, and so fits.
    assert(side < mv * mv) by (nonlinear_arith)
        requires
            0 <= av < mv,
            0 <= bv < mv,
            0 <= rv < mv,
            side == av + bv || side == av * bv || side == rv + bv || side == rv * bv,
    ;
    vstd::arithmetic::div_mod::lemma_multiply_divide_lt(side, mv, mv);
    match op {
        FieldOperation::Add => {},
        FieldOperation::Mul => {},
        FieldOperation::Sub => {
            // r + b = a + m - b % m + b - m * k, and b % m = b.
            lemma_small_mod(bv as nat, mv as nat);
            let s = av + (mv - bv);
            assert(rv == s % mv);
            vstd::arithmetic::div_mod::lemma_add_mod_noop_right(bv, s, mv);
            assert((bv + s % mv) % mv == (bv + s) % mv);
            assert(bv + s == mv * 1 + av);
            vstd::arithmetic::div_mod::lemma_mod_multiples_vanish(1, av, mv);
            lemma_small_mod(av as nat, mv as nat);
        },
        FieldOperation::Div => {
            if av == 0 && bv == 0 {
                assert(rv == 0) by {
                    lemma_small_mod(0, mv as nat);
                    let inverse = (pow(bv, inverse_exponent(mv as nat)) % mv) as nat;
                    assert(0 * inverse == 0) by (nonlinear_arith);
                }
                assert(rv * bv == 0) by (nonlinear_arith)
                    requires
                        rv == 0,
                ;
                lemma_small_mod(0, mv as nat);
            }
        },
    }
}

/// The result of an operation modulo a positive modulus is below the
/// modulus.
pub proof fn lemma_result_below_modulus(a: nat, b: nat, m: nat, op: FieldOperation)
    requires
        m > 0,
    ensures
        op_result(a, b, m, op) < m,
{
    match op {
        FieldOperation::Add => {
            vstd::arithmetic::div_mod::lemma_mod_bound((a + b) as int, m as int);
        },
        FieldOperation::Mul => {
            vstd::arithmetic::div_mod::lemma_mod_bound((a * b) as int, m as int);
        },
        FieldOperation::Sub => {
            vstd::arithmetic::div_mod::lemma_mod_bound((a + (m - b % m) as nat) as int, m as int);
        },
        FieldOperation::Div => {
            vstd::arithmetic::div_mod::lemma_mod_bound(
                (a * ((pow(b as int, inverse_exponent(m)) % (m as int)) as nat)) as int,
                m as int,
            );
        },
    }
}

/// Bytes as trace cells.
pub open spec fn byte_cells(s: Seq<u8>) -> Seq<u32> {
    Seq::new(s.len(), |i: int| s[i] as u32)
}

impl FieldOpCols<u32> {
    /// Whether the columns are those of the operation on the limbs `a` and `b`
    /// modulo the limbs `m`.
    pub open spec fn is_witness(
        self,
        a: Seq<u8>,
        b: Seq<u8>,
        m: Seq<u8>,
        op: FieldOperation,
    ) -> bool {
        let r = op_result(le_value(a), le_value(b), le_value(m), op);
        let q = checked_side(le_value(a), le_value(b), r, op) / le_value(m);
        let v = op_vanishing(a, b, m, op);
        &&& self.result.0@ == byte_cells(limbs_of(r))
        &&& self.carry.0@ == byte_cells(limbs_of(q))
        &&& self.witness_low@ == Seq::new(
            62,
            |k: int| ((quotient_coeff(v, k) + 32768) % 256) as u32,
        )
        &&& self.witness_high@ == Seq::new(
            62,
            |k: int| ((quotient_coeff(v, k) + 32768) / 256) as u32,
        )
    }

    /// The columns of the operation on the limbs `a` and `b` modulo the
    /// limbs `m`.
    pub open spec fn witness(a: Seq<u8>, b: Seq<u8>, m: Seq<u8>, op: FieldOperation) -> Self {
        choose|cols: Self| cols.is_witness(a, b, m, op)
    }

    /// The columns of an operation are determined.
    pub proof fn lemma_witness_unique(self, a: Seq<u8>, b: Seq<u8>, m: Seq<u8>, op: FieldOperation)
        requires
            self.is_witness(a, b, m, op),
        ensures
            self == Self::witness(a, b, m, op),
    {
        let other = Self::witness(a, b, m, op);
        assert(other.is_witness(a, b, m, op));
        assert(self.result.0 =~= other.result.0);
        assert(self.carry.0 =~= other.carry.0);
        assert(self.witness_low =~= other.witness_low);
        assert(self.witness_high =~= other.witness_high);
    }

    /// Whether every cell of the columns is zero.
    pub open spec fn is_zero(self) -> bool {
        &&& forall|i: int| 0 <= i < 32 ==> self.result.0[i] == 0 && self.carry.0[i] == 0
        &&& forall|i: int| 0 <= i < 62 ==> self.witness_low[i] == 0 && self.witness_high[i] == 0
    }

    /// Columns of zeros.
    pub fn zeroed() -> (cols: Self)
        ensures
            cols.is_zero(),
    {
        FieldOpCols {
            result: Limbs([0u32; 32]),
            carry: Limbs([0u32; 32]),
            witness_low: [0u32; 62],
            witness_high: [0u32; 62],
        }
    }

    /// Fills the columns for the operation `op` on `a` and `b` modulo
    /// `modulus` and returns the result, below the modulus; or leaves the
    /// columns and returns nothing, where no columns can witness the
    /// operation.
    pub fn populate(
        &mut self,
        a: &Limbs<u8>,
        b: &Limbs<u8>,
        op: FieldOperation,
        modulus: &Limbs<u8>,
    ) -> (result: Option<Limbs<u8>>)
        ensures
            result is Some <==> field_op_defined(a.0@, b.0@, modulus.0@, op),
            result matches Some(r) ==> {
                &&& r.value() == op_result(a.value(), b.value(), modulus.value(), op)
                &&& r.value() < modulus.value()
                &&& final(self).is_witness(a.0@, b.0@, modulus.0@, op)
            },
            result is None ==> *final(self) == *old(self),
    {
        if modulus.same(&Limbs::zero()) {
            return None;
        }
        let a_bytes = a.to_bytes();
        let b_bytes = b.to_bytes();
        let m_bytes = modulus.to_bytes();
        let ghost mv = modulus.value();
        let ghost rv = op_result(a.value(), b.value(), mv, op);
        let result_bytes = match op {
            FieldOperation::Add => remainder(&sum(&a_bytes, &b_bytes), &m_bytes),
            FieldOperation::Mul => remainder(&product(&a_bytes, &b_bytes), &m_bytes),
            FieldOperation::Sub => {
                let reduced = remainder(&b_bytes, &m_bytes);
                proof {
                    vstd::arithmetic::div_mod::lemma_mod_bound(b.value() as int, mv as int);
                }
                let negated = difference(&m_bytes, &reduced);
                remainder(&sum(&a_bytes, &negated), &m_bytes)
            },
            FieldOperation::Div => {
                let exponent = inverting_exponent(&m_bytes);
                let inverse = power_mod(&b_bytes, &exponent, &m_bytes);
                proof {
                    vstd::arithmetic::div_mod::lemma_mod_bound(
                        pow(b.value() as int, inverse_exponent(mv)),
                        mv as int,
                    );
                }
                remainder(&product(&a_bytes, &inverse), &m_bytes)
            },
        };
        proof {
            lemma_le_value_bound(modulus.0@);
            vstd::arithmetic::div_mod::lemma_mod_bound(
                checked_side(a.value(), b.value(), rv, op) as int,
                mv as int,
            );
            assert(le_value(result_bytes@) == rv);
            assert(rv < mv) by {
                match op {
                    FieldOperation::Add => {
                        vstd::arithmetic::div_mod::lemma_mod_bound(
                            (a.value() + b.value()) as int,
                            mv as int,
                        );
                    },
                    FieldOperation::Mul => {
                        vstd::arithmetic::div_mod::lemma_mod_bound(
                            (a.value() * b.value()) as int,
                            mv as int,
                        );
                    },
                    FieldOperation::Sub => {
                        vstd::arithmetic::div_mod::lemma_mod_bound(
                            (a.value() + (mv - b.value() % mv) as nat) as int,
                            mv as int,
                        );
                    },
                    FieldOperation::Div => {
                        vstd::arithmetic::div_mod::lemma_mod_bound(
                            (a.value() * ((pow(b.value() as int, inverse_exponent(mv)) % (
                            mv as int)) as nat)) as int,
                            mv as int,
                        );
                    },
                }
            }
        }
        let r = match Limbs::from_bytes(&result_bytes) {
            Some(r) => r,
            None => {
                return None;
            },
        };
        let reverse: bool = match op {
            FieldOperation::Add => false,
            FieldOperation::Mul => false,
            FieldOperation::Sub => true,
            FieldOperation::Div => true,
        };
        let multiply: bool = match op {
            FieldOperation::Add => false,
            FieldOperation::Mul => true,
            FieldOperation::Sub => false,
            FieldOperation::Div => true,
        };
        let x: &Limbs<u8> = if reverse {
            &r
        } else {
            a
        };
        let t: &Limbs<u8> = if reverse {
            a
        } else {
            &r
        };
        let x_bytes = x.to_bytes();
        let side = if multiply {
            product(&x_bytes, &b_bytes)
        } else {
            sum(&x_bytes, &b_bytes)
        };
        assert(le_value(side@) == checked_side(a.value(), b.value(), rv, op));
        let back = match Limbs::from_bytes(&remainder(&side, &m_bytes)) {
            Some(back) => back,
            None => {
                return None;
            },
        };
        if !back.same(t) {
            return None;
        }
        let q = match Limbs::from_bytes(&quotient(&side, &m_bytes)) {
            Some(q) => q,
            None => {
                return None;
            },
        };
        let v = vanishing(x, b, t, &q, modulus, multiply);
        proof {
            lemma_limbs_of(r.0@);
            lemma_limbs_of(q.0@);
            assert(Seq::new(63, |k: int| v[k] as int) =~= op_vanishing(
                a.0@,
                b.0@,
                modulus.0@,
                op,
            ));
        }
        proof {
            lemma_op_vanishing_exact(a.0@, b.0@, modulus.0@, op);
        }
        let (low, high) = match divide_by_root(&v) {
            Some(w) => w,
            None => {
                return None;
            },
        };
        let ghost vs = op_vanishing(a.0@, b.0@, modulus.0@, op);
        let mut result_cells: [u32; 32] = [0u32; 32];
        let mut carry_cells: [u32; 32] = [0u32; 32];
        let mut i: usize = 0;
        while i < 32
            invariant
                i <= 32,
                forall|j: int| 0 <= j < i ==> result_cells[j] == r.0[j] as u32,
                forall|j: int| 0 <= j < i ==> carry_cells[j] == q.0[j] as u32,
            decreases 32 - i,
        {
            result_cells[i] = r.0[i] as u32;
            carry_cells[i] = q.0[i] as u32;
            i += 1;
        }
        let mut low_cells: [u32; 62] = [0u32; 62];
        let mut high_cells: [u32; 62] = [0u32; 62];
        let mut k: usize = 0;
        while k < 62
            invariant
                k <= 62,
                low.len() == 62,
                high.len() == 62,
                forall|j: int| 0 <= j < k ==> low_cells[j] == low[j],
                forall|j: int| 0 <= j < k ==> high_cells[j] == high[j],
            decreases 62 - k,
        {
            low_cells[k] = low[k];
            high_cells[k] = high[k];
            k += 1;
        }
        self.result = Limbs(result_cells);
        self.carry = Limbs(carry_cells);
        self.witness_low = low_cells;
        self.witness_high = high_cells;
        proof {
            assert(self.result.0@ =~= byte_cells(limbs_of(rv)));
            assert(self.carry.0@ =~= byte_cells(limbs_of(le_value(side@) / mv)));
            assert(self.witness_low@ =~= Seq::new(
                62,
                |k: int| ((quotient_coeff(vs, k) + 32768) % 256) as u32,
            ));
            assert forall|k: int| 0 <= k < 62 implies high[k] as int == (quotient_coeff(vs, k)
                + 32768) / 256 by {
                let stored = low[k] as int + 256 * high[k] as int;
                assert(stored == quotient_coeff(vs, k) + 32768);
                assert(stored / 256 == high[k] as int);
            }
            assert(self.witness_high@ =~= Seq::new(
                62,
                |k: int| ((quotient_coeff(vs, k) + 32768) / 256) as u32,
            ));
        }
        Some(r)
    }
}

/// The bytes of the exponent that inverts modulo the integer that `m`
/// spells.
fn inverting_exponent(m: &Vec<u8>) -> (e: Vec<u8>)
    requires
        le_value(m@) > 0,
    ensures
        le_value(e@) == inverse_exponent(le_value(m@)),
{
    let mut one: Vec<u8> = Vec::new();
    one.push(1);
    let mut two: Vec<u8> = Vec::new();
    two.push(2);
    proof {
        reveal_with_fuel(le_value, 2);
        assert(one@.drop_first() =~= Seq::<u8>::empty());
        assert(two@.drop_first() =~= Seq::<u8>::empty());
    }
    let above_one = difference(m, &one);
    let mut i: usize = 0;
    let mut is_one: bool = true;
    while i < above_one.len()
        invariant
            i <= above_one.len(),
            is_one <==> forall|j: int| 0 <= j < i ==> above_one[j] == 0,
        decreases above_one.len() - i,
    {
        if above_one[i] != 0 {
            is_one = false;
        }
        i += 1;
    }
    proof {
        crate::limbs::lemma_le_value_zero(above_one@);
    }
    if is_one {
        let mut zero: Vec<u8> = Vec::new();
        zero.push(0);
        proof {
            assert(zero@.drop_first() =~= Seq::<u8>::empty());
        }
        zero
    } else {
        difference(m, &two)
    }
}

/// Coefficient `k` of the product of two big integers read as polynomials in
/// their limbs.
fn convolve(x: &Limbs<u8>, y: &Limbs<u8>, k: usize) -> (r: i64)
    requires
        k < 63,
    ensures
        r == conv(byte_ints(x.0@), byte_ints(y.0@), k as int, 32),
        0 <= r <= 32 * 65025,
{
    let mut acc: i64 = 0;
    let mut i: usize = 0;
    while i < 32
        invariant
            i <= 32,
            k < 63,
            acc == conv(byte_ints(x.0@), byte_ints(y.0@), k as int, i as int),
            0 <= acc <= i * 65025,
        decreases 32 - i,
    {
        if i <= k && k - i < 32 {
            let xi: i64 = x.0[i] as i64;
            let yj: i64 = y.0[k - i] as i64;
            assert(0 <= xi * yj <= 65025) by (nonlinear_arith)
                requires
                    0 <= xi <= 255,
                    0 <= yj <= 255,
            ;
            acc = acc + xi * yj;
        }
        i += 1;
    }
    acc
}

/// Limb `k` of a big integer, and zero beyond the last.
fn limb_at(x: &Limbs<u8>, k: usize) -> (r: i64)
    ensures
        r == at(byte_ints(x.0@), k as int),
        0 <= r <= 255,
{
    if k < 32 {
        x.0[k] as i64
    } else {
        0
    }
}

/// The sixty-three coefficients of `x · y - t - q · m`, or of
/// `x + y - t - q · m`.
fn vanishing(
    x: &Limbs<u8>,
    y: &Limbs<u8>,
    t: &Limbs<u8>,
    q: &Limbs<u8>,
    m: &Limbs<u8>,
    multiply: bool,
) -> (v: Vec<i64>)
    ensures
        v.len() == 63,
        forall|k: int|
            0 <= k < 63 ==> #[trigger] v[k] == vanishing_coeff(
                byte_ints(x.0@),
                byte_ints(y.0@),
                byte_ints(t.0@),
                byte_ints(q.0@),
                byte_ints(m.0@),
                multiply,
                k,
            ),
        forall|k: int| 0 <= k < 63 ==> -4194304 < #[trigger] v[k] < 4194304,
{
    let mut v: Vec<i64> = Vec::new();
    let mut k: usize = 0;
    while k < 63
        invariant
            k <= 63,
            v.len() == k,
            forall|j: int|
                0 <= j < k ==> #[trigger] v[j] == vanishing_coeff(
                    byte_ints(x.0@),
                    byte_ints(y.0@),
                    byte_ints(t.0@),
                    byte_ints(q.0@),
                    byte_ints(m.0@),
                    multiply,
                    j,
                ),
            forall|j: int| 0 <= j < k ==> -4194304 < #[trigger] v[j] < 4194304,
        decreases 63 - k,
    {
        let left: i64 = if multiply {
            convolve(x, y, k)
        } else {
            limb_at(x, k) + limb_at(y, k)
        };
        let c: i64 = left - limb_at(t, k) - convolve(q, m, k);
        v.push(c);
        k += 1;
    }
    v
}

/// Divides the polynomial `v` by `X - 256` and returns the low and the high
/// bytes of the coefficients of the quotient, each shifted by the offset; or
/// nothing, if the division leaves a remainder or a coefficient is too large
/// to store.
fn divide_by_root(v: &Vec<i64>) -> (r: Option<(Vec<u32>, Vec<u32>)>)
    requires
        v.len() == 63,
        forall|k: int| 0 <= k < 63 ==> -4194304 < #[trigger] v[k] < 4194304,
    ensures
        r is Some <==> division_exact(Seq::new(63, |k: int| v[k] as int)),
        r matches Some((low, high)) ==> {
            &&& low.len() == 62
            &&& high.len() == 62
            &&& forall|k: int|
                0 <= k < 62 ==> 0 <= #[trigger] low[k] < 256 && 0 <= high[k] < 256 && low[k] + 256
                    * high[k] - 32768 == quotient_coeff(Seq::new(63, |k: int| v[k] as int), k)
        },
{
    let ghost vs = Seq::new(63, |k: int| v[k] as int);
    let mut low: Vec<u32> = Vec::new();
    let mut high: Vec<u32> = Vec::new();
    let mut previous: i64 = 0;
    let mut k: usize = 0;
    while k < 62
        invariant
            k <= 62,
            v.len() == 63,
            vs == Seq::new(63, |k: int| v[k] as int),
            forall|j: int| 0 <= j < 63 ==> -4194304 < #[trigger] v[j] < 4194304,
            low.len() == k,
            high.len() == k,
            previous == quotient_coeff(vs, k as int - 1),
            -32768 <= previous < 32768,
            forall|j: int| 0 <= j < k ==> #[trigger] step_exact(vs, j),
            forall|j: int|
                0 <= j < k ==> 0 <= #[trigger] low[j] < 256 && 0 <= high[j] < 256 && low[j] + 256
                    * high[j] - 32768 == quotient_coeff(vs, j),
        decreases 62 - k,
    {
        let t: i64 = previous - v[k];
        let u: i64 = t + 8388608;
        assert(vs[k as int] == v[k as int]);
        if u < 0 || u >= 16777216 {
            assert(!step_exact(vs, k as int));
            return None;
        }
        let u: u64 = u as u64;
        if u % 256 != 0 {
            assert(!step_exact(vs, k as int));
            return None;
        }
        let s: u64 = u / 256;
        assert(quotient_coeff(vs, k as int) == s - 32768);
        let ghost low_before = low@;
        let ghost high_before = high@;
        low.push((s % 256) as u32);
        high.push((s / 256) as u32);
        previous = s as i64 - 32768;
        proof {
            assert(step_exact(vs, k as int));
            assert forall|j: int| 0 <= j < k + 1 implies 0 <= #[trigger] low[j] < 256 && 0
                <= high[j] < 256 && low[j] + 256 * high[j] - 32768 == quotient_coeff(vs, j) by {
                if j < k {
                    assert(low[j] == low_before[j]);
                    assert(high[j] == high_before[j]);
                } else {
                    assert(low[j] == s % 256);
                    assert(high[j] == s / 256);
                }
            }
        }
        k += 1;
    }
    if v[62] != previous {
        assert(vs[62] == v[62]);
        return None;
    }
    assert(vs[62] == v[62]);
    Some((low, high))
}

/// The integers that thirty-two limb cells denote.
pub open spec fn limb_values<B: ConstraintBuilder>(l: Limbs<B::Var>) -> Seq<int> {
    seq_values::<B>(l.0@)
}

/// The integers that sixty-two witness cells denote.
pub open spec fn witness_values<B: ConstraintBuilder>(w: [B::Var; 62]) -> Seq<int> {
    seq_values::<B>(w@)
}

/// Trace cells as integers.
pub open spec fn cell_ints(s: Seq<u32>) -> Seq<int> {
    Seq::new(s.len(), |i: int| s[i] as int)
}

/// Whether the columns `cols` satisfy the identities of `op` modulo the limbs
/// `m` on operands whose limbs denote `a` and `b`.
pub open spec fn op_holds<B: ConstraintBuilder>(
    a: Seq<int>,
    b: Seq<int>,
    cols: FieldOpCols<B::Var>,
    m: Seq<int>,
    op: FieldOperation,
) -> bool {
    field_op_relation(
        a,
        b,
        limb_values::<B>(cols.result),
        limb_values::<B>(cols.carry),
        witness_values::<B>(cols.witness_low),
        witness_values::<B>(cols.witness_high),
        m,
        op,
        B::modulus(),
    )
}

/// What the evaluator finds of the columns of a defined operation: they
/// satisfy its identities.
pub proof fn lemma_op_holds<const P: u32>(
    a: Seq<u8>,
    b: Seq<u8>,
    m: Seq<u8>,
    op: FieldOperation,
)
    requires
        P > 0,
        a.len() == 32,
        b.len() == 32,
        m.len() == 32,
        field_op_defined(a, b, m, op),
    ensures
        op_holds::<RowEvaluator<P>>(
            byte_ints(a),
            byte_ints(b),
            FieldOpCols::witness(a, b, m, op),
            byte_ints(m),
            op,
        ),
        FieldOpCols::witness(a, b, m, op).is_witness(a, b, m, op),
        cell_ints(FieldOpCols::witness(a, b, m, op).result.0@) == byte_ints(
            limbs_of(op_result(le_value(a), le_value(b), le_value(m), op)),
        ),
{
    let rv = op_result(le_value(a), le_value(b), le_value(m), op);
    let qv = checked_side(le_value(a), le_value(b), rv, op) / le_value(m);
    let v = op_vanishing(a, b, m, op);
    lemma_field_op_congruence(a, b, m, op);
    lemma_le_value_bound(m);
    lemma_witness_exists(a, b, m, op);
    let cols = FieldOpCols::witness(a, b, m, op);
    lemma_field_op_witness_satisfies(cols, a, b, m, op, P as int);
    lemma_evaluator_reads_limbs::<P>(cols.result);
    lemma_evaluator_reads_limbs::<P>(cols.carry);
    lemma_evaluator_reads_witness::<P>(cols.witness_low);
    lemma_evaluator_reads_witness::<P>(cols.witness_high);
    assert(cell_ints(cols.result.0@) =~= byte_ints(limbs_of(rv)));
}

/// Thirty-two limbs exist for every integer below their bound.
pub proof fn lemma_limbs_exist(n: nat)
    requires
        n < limbs_bound(),
    ensures
        limbs_of(n).len() == 32,
        le_value(limbs_of(n)) == n,
{
    lemma_digits(n, 32);
    let d = digits(n, 32);
    assert(d.len() == 32 && le_value(d) == n);
}

/// The array of zeros with its first `k` cells replaced by those of `s`.
pub open spec fn array_from<const N: usize>(s: Seq<u32>, k: int) -> [u32; N]
    decreases k,
{
    if k <= 0 {
        vstd::array::spec_array_fill_for_copy_type::<u32, N>(0)
    } else {
        vstd::array::spec_array_update(array_from::<N>(s, k - 1), k - 1, s[k - 1])
    }
}

/// The array whose cells are those of `s`.
pub open spec fn array_of<const N: usize>(s: Seq<u32>) -> [u32; N] {
    array_from::<N>(s, N as int)
}

proof fn lemma_array_from<const N: usize>(s: Seq<u32>, k: int)
    requires
        s.len() == N,
        0 <= k <= N,
    ensures
        forall|i: int| 0 <= i < k ==> array_from::<N>(s, k)@[i] == s[i],
    decreases k,
{
    if k > 0 {
        lemma_array_from::<N>(s, k - 1);
    }
}

/// The cells of the array of `s` are those of `s`.
pub proof fn lemma_array_of<const N: usize>(s: Seq<u32>)
    requires
        s.len() == N,
    ensures
        array_of::<N>(s)@ == s,
{
    lemma_array_from::<N>(s, N as int);
    assert(array_of::<N>(s)@ =~= s);
}

/// Columns exist for every operation: some columns hold the limbs and the
/// bytes that `is_witness` asks for.
pub proof fn lemma_witness_exists(a: Seq<u8>, b: Seq<u8>, m: Seq<u8>, op: FieldOperation)
    requires
        field_op_defined(a, b, m, op),
        op_result(le_value(a), le_value(b), le_value(m), op) < limbs_bound(),
    ensures
        FieldOpCols::witness(a, b, m, op).is_witness(a, b, m, op),
{
    let rv = op_result(le_value(a), le_value(b), le_value(m), op);
    let qv = checked_side(le_value(a), le_value(b), rv, op) / le_value(m);
    let v = op_vanishing(a, b, m, op);
    let result = array_of::<32>(byte_cells(limbs_of(rv)));
    let carry = array_of::<32>(byte_cells(limbs_of(qv)));
    let low = array_of::<62>(
        Seq::new(62, |k: int| ((quotient_coeff(v, k) + 32768) % 256) as u32),
    );
    let high = array_of::<62>(
        Seq::new(62, |k: int| ((quotient_coeff(v, k) + 32768) / 256) as u32),
    );
    lemma_limbs_exist(rv);
    lemma_limbs_exist(qv);
    lemma_array_of::<32>(byte_cells(limbs_of(rv)));
    lemma_array_of::<32>(byte_cells(limbs_of(qv)));
    lemma_array_of::<62>(Seq::new(62, |k: int| ((quotient_coeff(v, k) + 32768) % 256) as u32));
    lemma_array_of::<62>(Seq::new(62, |k: int| ((quotient_coeff(v, k) + 32768) / 256) as u32));
    let cols = FieldOpCols::<u32> {
        result: Limbs(result),
        carry: Limbs(carry),
        witness_low: low,
        witness_high: high,
    };
    assert(cols.is_witness(a, b, m, op));
}

/// Limb `k` of a big integer of cells, and zero beyond the last.
fn limb_expr<B: ConstraintBuilder>(l: &Limbs<B::Var>, k: usize) -> (e: B::Expr)
    ensures
        B::expr_value(e) == at(limb_values::<B>(*l), k as int),
{
    if k < 32 {
        B::lift(l.0[k])
    } else {
        B::constant(0)
    }
}

/// Coefficient `k` of the product of two big integers of cells.
fn product_coeff<B: ConstraintBuilder>(x: &Limbs<B::Var>, y: &Limbs<B::Var>, k: usize) -> (e:
    B::Expr)
    requires
        k < 63,
    ensures
        B::expr_value(e) == conv(limb_values::<B>(*x), limb_values::<B>(*y), k as int, 32),
{
    let mut acc = B::constant(0);
    let mut i: usize = 0;
    while i < 32
        invariant
            i <= 32,
            k < 63,
            B::expr_value(acc) == conv(
                limb_values::<B>(*x),
                limb_values::<B>(*y),
                k as int,
                i as int,
            ),
        decreases 32 - i,
    {
        if i <= k && k - i < 32 {
            let term = B::times(&B::lift(x.0[i]), &B::lift(y.0[k - i]));
            acc = B::plus(&acc, &term);
        } else {
            assert(at(limb_values::<B>(*y), k as int - i as int) == 0);
            assert(at(limb_values::<B>(*x), i as int) * 0 == 0);
        }
        i += 1;
    }
    acc
}

/// Coefficient `k` of the product of a big integer of cells and a constant.
fn scaled_coeff<B: ConstraintBuilder>(q: &Limbs<B::Var>, m: &Limbs<u8>, k: usize) -> (e: B::Expr)
    requires
        k < 63,
    ensures
        B::expr_value(e) == conv(limb_values::<B>(*q), byte_ints(m.0@), k as int, 32),
{
    let mut acc = B::constant(0);
    let mut i: usize = 0;
    while i < 32
        invariant
            i <= 32,
            k < 63,
            B::expr_value(acc) == conv(limb_values::<B>(*q), byte_ints(m.0@), k as int, i as int),
        decreases 32 - i,
    {
        if i <= k && k - i < 32 {
            let term = B::times(&B::lift(q.0[i]), &B::constant(m.0[k - i] as u32));
            acc = B::plus(&acc, &term);
        } else {
            assert(at(byte_ints(m.0@), k as int - i as int) == 0);
            assert(at(limb_values::<B>(*q), i as int) * 0 == 0);
        }
        i += 1;
    }
    acc
}

/// Coefficient `k` of the quotient by `X - 256`, from the witness cells.
fn witness_expr<B: ConstraintBuilder>(low: &[B::Var; 62], high: &[B::Var; 62], k: usize) -> (e:
    B::Expr)
    ensures
        B::expr_value(e) == witness_coeff(
            witness_values::<B>(*low),
            witness_values::<B>(*high),
            k as int,
        ),
{
    if k < 62 {
        let upper = B::times(&B::constant(256), &B::lift(high[k]));
        let stored = B::plus(&B::lift(low[k]), &upper);
        B::minus(&stored, &B::constant(WITNESS_OFFSET))
    } else {
        B::constant(0)
    }
}

impl FieldOpCols<u32> {
    /// States the identities of the operation `op` modulo `modulus` on the
    /// operands `a` and `b`.
    pub fn eval<B: ConstraintBuilder>(
        builder: &mut B,
        a: &Limbs<B::Var>,
        b: &Limbs<B::Var>,
        cols: &FieldOpCols<B::Var>,
        op: FieldOperation,
        modulus: &Limbs<u8>,
    )
        ensures
            final(builder).state() == old(builder).state().and(
                op_holds::<B>(
                    limb_values::<B>(*a),
                    limb_values::<B>(*b),
                    *cols,
                    byte_ints(modulus.0@),
                    op,
                ),
            ),
    {
        let reverse: bool = match op {
            FieldOperation::Add => false,
            FieldOperation::Mul => false,
            FieldOperation::Sub => true,
            FieldOperation::Div => true,
        };
        let multiply: bool = match op {
            FieldOperation::Add => false,
            FieldOperation::Mul => true,
            FieldOperation::Sub => false,
            FieldOperation::Div => true,
        };
        let x: &Limbs<B::Var> = if reverse {
            &cols.result
        } else {
            a
        };
        let t: &Limbs<B::Var> = if reverse {
            a
        } else {
            &cols.result
        };
        let ghost xv = limb_values::<B>(*x);
        let ghost yv = limb_values::<B>(*b);
        let ghost tv = limb_values::<B>(*t);
        let ghost qv = limb_values::<B>(cols.carry);
        let ghost mv = byte_ints(modulus.0@);
        let ghost low = witness_values::<B>(cols.witness_low);
        let ghost high = witness_values::<B>(cols.witness_high);
        let mut k: usize = 0;
        while k < 63
            invariant
                k <= 63,
                xv == limb_values::<B>(*x),
                yv == limb_values::<B>(*b),
                tv == limb_values::<B>(*t),
                qv == limb_values::<B>(cols.carry),
                mv == byte_ints(modulus.0@),
                low == witness_values::<B>(cols.witness_low),
                high == witness_values::<B>(cols.witness_high),
                builder.state() == old(builder).state().and(forall|j: int|
                    0 <= j < k ==> #[trigger] coefficient_vanishes(
                        xv,
                        yv,
                        tv,
                        qv,
                        mv,
                        low,
                        high,
                        multiply,
                        j,
                        B::modulus(),
                    )),
            decreases 63 - k,
        {
            let left = if multiply {
                product_coeff::<B>(x, b, k)
            } else {
                B::plus(&limb_expr::<B>(x, k), &limb_expr::<B>(b, k))
            };
            let reduced = B::minus(
                &B::minus(&left, &limb_expr::<B>(t, k)),
                &scaled_coeff::<B>(&cols.carry, modulus, k),
            );
            let below = if k == 0 {
                B::constant(0)
            } else {
                witness_expr::<B>(&cols.witness_low, &cols.witness_high, k - 1)
            };
            let here = witness_expr::<B>(&cols.witness_low, &cols.witness_high, k);
            let shifted = B::minus(&below, &B::times(&B::constant(256), &here));
            let ghost before = builder.state();
            let identity = B::minus(&reduced, &shifted);
            builder.assert_zero(&identity);
            proof {
                assert(B::expr_value(identity) == vanishing_coeff(
                    xv,
                    yv,
                    tv,
                    qv,
                    mv,
                    multiply,
                    k as int,
                ) - (witness_coeff(low, high, k as int - 1) - 256 * witness_coeff(
                    low,
                    high,
                    k as int,
                )));
                assert(builder.state() == before.and(coefficient_vanishes(
                    xv,
                    yv,
                    tv,
                    qv,
                    mv,
                    low,
                    high,
                    multiply,
                    k as int,
                    B::modulus(),
                )));
            }
            k += 1;
        }
    }
}

/// The evaluator reads limb cells as the integers they hold.
pub proof fn lemma_evaluator_reads_limbs<const P: u32>(l: Limbs<u32>)
    ensures
        limb_values::<RowEvaluator<P>>(l) == cell_ints(l.0@),
{
    assert(limb_values::<RowEvaluator<P>>(l) =~= cell_ints(l.0@));
}

/// The evaluator reads witness cells as the integers they hold.
pub proof fn lemma_evaluator_reads_witness<const P: u32>(w: [u32; 62])
    ensures
        witness_values::<RowEvaluator<P>>(w) == cell_ints(w@),
{
    assert(witness_values::<RowEvaluator<P>>(w) =~= cell_ints(w@));
}

/// Witness and constraints agree on a field operation: the columns of a
/// defined operation satisfy, with the limbs of its operands, the identities
/// that `eval` states, in every field.
pub proof fn lemma_field_op_witness_satisfies(
    cols: FieldOpCols<u32>,
    a: Seq<u8>,
    b: Seq<u8>,
    m: Seq<u8>,
    op: FieldOperation,
    p: int,
)
    requires
        p > 0,
        a.len() == 32,
        b.len() == 32,
        m.len() == 32,
        field_op_defined(a, b, m, op),
        cols.is_witness(a, b, m, op),
    ensures
        field_op_relation(
            byte_ints(a),
            byte_ints(b),
            cell_ints(cols.result.0@),
            cell_ints(cols.carry.0@),
            cell_ints(cols.witness_low@),
            cell_ints(cols.witness_high@),
            byte_ints(m),
            op,
            p,
        ),
{
    let rv = op_result(le_value(a), le_value(b), le_value(m), op);
    let qv = checked_side(le_value(a), le_value(b), rv, op) / le_value(m);
    let r = limbs_of(rv);
    let q = limbs_of(qv);
    let v = op_vanishing(a, b, m, op);
    lemma_op_vanishing_exact(a, b, m, op);
    let low = cell_ints(cols.witness_low@);
    let high = cell_ints(cols.witness_high@);
    assert(cell_ints(cols.result.0@) =~= byte_ints(r));
    assert(cell_ints(cols.carry.0@) =~= byte_ints(q));
    lemma_small_mod(0, p as nat);
    assert forall|k: int| -1 <= k < 63 implies witness_coeff(low, high, k) == (if k == 62 {
        0
    } else {
        quotient_coeff(v, k)
    }) by {
        if 0 <= k < 62 {
            assert(step_exact(v, k));
            lemma_fundamental_div_mod(quotient_coeff(v, k) + 32768, 256);
        }
    }
    let x = byte_ints(if reversed(op) {
        r
    } else {
        a
    });
    let t = byte_ints(if reversed(op) {
        a
    } else {
        r
    });
    assert forall|k: int| 0 <= k < 63 implies #[trigger] coefficient_vanishes(
        x,
        byte_ints(b),
        t,
        byte_ints(q),
        byte_ints(m),
        low,
        high,
        multiplies(op),
        k,
        p,
    ) by {
        assert(v[k] == vanishing_coeff(
            x,
            byte_ints(b),
            t,
            byte_ints(q),
            byte_ints(m),
            multiplies(op),
            k,
        ));
        if k < 62 {
            assert(step_exact(v, k));
            lemma_fundamental_div_mod(quotient_coeff(v, k - 1) - v[k], 256);
        }
    }
}

/// The identities of a field operation are sound: in a field of more than
/// two to the twenty-sixth elements, columns of bytes that satisfy them hold
/// a result and a quotient `q` with `a + b = q · m + r` for an addition,
/// `a · b = q · m + r` for a multiplication, `r + b = q · m + a` for a
/// subtraction and `r · b = q · m + a` for a division.
pub proof fn lemma_field_op_sound(
    a: Seq<u8>,
    b: Seq<u8>,
    result: Seq<u8>,
    carry: Seq<u8>,
    low: Seq<int>,
    high: Seq<int>,
    m: Seq<u8>,
    op: FieldOperation,
    p: int,
)
    requires
        p > 0x400_0000,
        a.len() == 32,
        b.len() == 32,
        result.len() == 32,
        carry.len() == 32,
        m.len() == 32,
        low.len() == 62,
        high.len() == 62,
        forall|k: int| 0 <= k < 62 ==> 0 <= #[trigger] low[k] < 256,
        forall|k: int| 0 <= k < 62 ==> 0 <= #[trigger] high[k] < 256,
        field_op_relation(
            byte_ints(a),
            byte_ints(b),
            byte_ints(result),
            byte_ints(carry),
            low,
            high,
            byte_ints(m),
            op,
            p,
        ),
    ensures
        checked_side(le_value(a), le_value(b), le_value(result), op) == le_value(carry)
            * le_value(m) + checked_target(le_value(a), le_value(result), op),
{
    let x = if reversed(op) {
        result
    } else {
        a
    };
    let t = if reversed(op) {
        a
    } else {
        result
    };
    crate::operations::limb_poly::lemma_limb_relation_sound(
        x,
        b,
        t,
        carry,
        m,
        low,
        high,
        multiplies(op),
        p,
    );
}

/// What a field operation returns is congruent to the operation on its
/// operands: the sum or the product reduces to the result, and for a defined
/// subtraction or division the result with the second operand gives back the
/// first.
pub proof fn lemma_field_op_congruence(a: Seq<u8>, b: Seq<u8>, m: Seq<u8>, op: FieldOperation)
    requires
        le_value(m) > 0,
        reversed(op) ==> field_op_defined(a, b, m, op),
    ensures
        ({
            let r = op_result(le_value(a), le_value(b), le_value(m), op);
            &&& 0 <= r < le_value(m)
            &&& op == FieldOperation::Add ==> (le_value(a) + le_value(b)) % le_value(m) == r
            &&& op == FieldOperation::Mul ==> (le_value(a) * le_value(b)) % le_value(m) == r
            &&& op == FieldOperation::Sub ==> (r + le_value(b)) % le_value(m) == le_value(a)
            &&& op == FieldOperation::Div ==> (r * le_value(b)) % le_value(m) == le_value(a)
        }),
{
    let mv = le_value(m);
    let av = le_value(a);
    let bv = le_value(b);
    match op {
        FieldOperation::Add => {
            vstd::arithmetic::div_mod::lemma_mod_bound((av + bv) as int, mv as int);
        },
        FieldOperation::Mul => {
            vstd::arithmetic::div_mod::lemma_mod_bound((av * bv) as int, mv as int);
        },
        FieldOperation::Sub => {
            vstd::arithmetic::div_mod::lemma_mod_bound(
                (av + (mv - bv % mv) as nat) as int,
                mv as int,
            );
        },
        FieldOperation::Div => {
            vstd::arithmetic::div_mod::lemma_mod_bound(
                (av * ((pow(bv as int, inverse_exponent(mv)) % (mv as int)) as nat)) as int,
                mv as int,
            );
        },
    }
}

} // verus!
