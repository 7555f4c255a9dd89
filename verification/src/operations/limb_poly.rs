//! Big integers as polynomials in the limb base: the value of a polynomial
//! at the base, and why a polynomial that vanishes there divides by
//! `X - 256` with small coefficients.

use vstd::prelude::*;
use vstd::arithmetic::mul::lemma_mul_equality_converse;
use vstd::arithmetic::power::lemma_pow_adds;
use crate::limbs::{le_value, pow256, lemma_pow256, lemma_le_value_concat};
use crate::builder::lemma_small_vanishes;
use crate::operations::field_op::{
    at, conv, byte_ints, quotient_coeff, step_exact, division_exact, vanishing_coeff,
    witness_coeff, limb_relation, coefficient_vanishes,
};

verus! {

/// The value at the base of the first `n` terms of the polynomial with
/// coefficients `f`.
pub open spec fn fsum(f: spec_fn(int) -> int, n: int) -> int
    decreases n,
{
    if n <= 0 {
        0
    } else {
        fsum(f, n - 1) + f(n - 1) * pow256((n - 1) as nat)
    }
}

/// The value of the terms from `j` up to `n`, with the power of `j` taken
/// out.
pub open spec fn tsum(f: spec_fn(int) -> int, j: int, n: int) -> int
    decreases
            (if n > j {
                n - j
            } else {
                0
            }),
{
    if n <= j {
        0
    } else {
        tsum(f, j, n - 1) + f(n - 1) * pow256((n - 1 - j) as nat)
    }
}

/// The coefficients of the polynomial of the sequence `s`.
pub open spec fn seq_fn(s: Seq<int>) -> spec_fn(int) -> int {
    |k: int| at(s, k)
}

/// The value of a sum of polynomials is the sum of their values.
pub proof fn lemma_fsum_add(
    f: spec_fn(int) -> int,
    g: spec_fn(int) -> int,
    h: spec_fn(int) -> int,
    n: int,
)
    requires
        forall|k: int| 0 <= k < n ==> #[trigger] h(k) == f(k) + g(k),
    ensures
        fsum(h, n) == fsum(f, n) + fsum(g, n),
    decreases n,
{
    if n > 0 {
        lemma_fsum_add(f, g, h, n - 1);
        let p = pow256((n - 1) as nat) as int;
        assert((f(n - 1) + g(n - 1)) * p == f(n - 1) * p + g(n - 1) * p) by (nonlinear_arith);
    }
}

/// The value of a difference of polynomials is the difference of their
/// values.
pub proof fn lemma_fsum_sub(
    f: spec_fn(int) -> int,
    g: spec_fn(int) -> int,
    h: spec_fn(int) -> int,
    n: int,
)
    requires
        forall|k: int| 0 <= k < n ==> #[trigger] h(k) == f(k) - g(k),
    ensures
        fsum(h, n) == fsum(f, n) - fsum(g, n),
    decreases n,
{
    if n > 0 {
        lemma_fsum_sub(f, g, h, n - 1);
        let p = pow256((n - 1) as nat) as int;
        assert((f(n - 1) - g(n - 1)) * p == f(n - 1) * p - g(n - 1) * p) by (nonlinear_arith);
    }
}

/// The value of a multiple of a polynomial is the multiple of its value.
pub proof fn lemma_fsum_scale(f: spec_fn(int) -> int, h: spec_fn(int) -> int, c: int, n: int)
    requires
        forall|k: int| 0 <= k < n ==> #[trigger] h(k) == c * f(k),
    ensures
        fsum(h, n) == c * fsum(f, n),
    decreases n,
{
    if n > 0 {
        lemma_fsum_scale(f, h, c, n - 1);
        let p = pow256((n - 1) as nat) as int;
        assert(c * (fsum(f, n - 1) + f(n - 1) * p) == c * fsum(f, n - 1) + (c * f(n - 1)) * p)
            by (nonlinear_arith);
    }
}

/// Terms that are zero add nothing.
pub proof fn lemma_fsum_extend(f: spec_fn(int) -> int, n: int, longer: int)
    requires
        0 <= n <= longer,
        forall|k: int| n <= k < longer ==> #[trigger] f(k) == 0,
    ensures
        fsum(f, longer) == fsum(f, n),
    decreases longer - n,
{
    if longer > n {
        lemma_fsum_extend(f, n, longer - 1);
        assert(0 * pow256((longer - 1) as nat) == 0);
    }
}

/// Moving the coefficients of a polynomial up by `s` places multiplies its
/// value by the base to the power `s`.
pub proof fn lemma_fsum_shift(f: spec_fn(int) -> int, g: spec_fn(int) -> int, s: int, n: int)
    requires
        0 <= s,
        0 <= n,
        forall|k: int| 0 <= k < s ==> #[trigger] g(k) == 0,
        forall|k: int| s <= k < s + n ==> #[trigger] g(k) == f(k - s),
    ensures
        fsum(g, s + n) == pow256(s as nat) * fsum(f, n),
    decreases n,
{
    if n == 0 {
        lemma_fsum_extend(g, 0, s);
        assert(pow256(s as nat) * 0 == 0);
    } else {
        lemma_fsum_shift(f, g, s, n - 1);
        let ps = pow256(s as nat) as int;
        let pn = pow256((n - 1) as nat) as int;
        assert(pow256((s + n - 1) as nat) == ps * pn) by {
            lemma_pow_adds(256, s as nat, (n - 1) as nat);
            lemma_pow256(s as nat);
            lemma_pow256((n - 1) as nat);
            lemma_pow256((s + n - 1) as nat);
        }
        assert(ps * (fsum(f, n - 1) + f(n - 1) * pn) == ps * fsum(f, n - 1) + f(n - 1) * (ps
            * pn)) by (nonlinear_arith);
    }
}

/// The terms from `j` on are a multiple of the base to the power `j`.
pub proof fn lemma_fsum_tail(f: spec_fn(int) -> int, j: int, n: int)
    requires
        0 <= j <= n,
    ensures
        fsum(f, n) == fsum(f, j) + pow256(j as nat) * tsum(f, j, n),
    decreases n,
{
    if n == j {
        assert(pow256(j as nat) * 0 == 0);
    } else {
        lemma_fsum_tail(f, j, n - 1);
        let pj = pow256(j as nat) as int;
        let pr = pow256((n - 1 - j) as nat) as int;
        assert(pow256((n - 1) as nat) == pj * pr) by {
            lemma_pow_adds(256, j as nat, (n - 1 - j) as nat);
            lemma_pow256(j as nat);
            lemma_pow256((n - 1 - j) as nat);
            lemma_pow256((n - 1) as nat);
        }
        assert(pj * (tsum(f, j, n - 1) + f(n - 1) * pr) == pj * tsum(f, j, n - 1) + f(n - 1) * (
        pj * pr)) by (nonlinear_arith);
    }
}

/// The value of the polynomial of bytes is the integer that the bytes spell.
pub proof fn lemma_fsum_le_value(s: Seq<u8>, n: int)
    requires
        0 <= n <= s.len(),
    ensures
        fsum(seq_fn(byte_ints(s)), n) == le_value(s.take(n)),
    decreases n,
{
    if n == 0 {
        assert(s.take(0) =~= Seq::<u8>::empty());
    } else {
        lemma_fsum_le_value(s, n - 1);
        let head = s.take(n - 1);
        let last = seq![s[n - 1]];
        assert(s.take(n) =~= head + last);
        lemma_le_value_concat(head, last);
        reveal_with_fuel(le_value, 2);
        assert(last.drop_first() =~= Seq::<u8>::empty());
        assert(le_value(last) == s[n - 1]);
        assert(seq_fn(byte_ints(s))(n - 1) == s[n - 1]);
        assert(s[n - 1] * pow256((n - 1) as nat) == pow256((n - 1) as nat) * s[n - 1])
            by (nonlinear_arith);
    }
}

/// The coefficients of the first `n` terms of the product of `x` and `y`.
pub open spec fn conv_fn(x: Seq<int>, y: Seq<int>, n: int) -> spec_fn(int) -> int {
    |k: int| conv(x, y, k, n)
}

/// The coefficients of `y`, moved up by `s` places.
pub open spec fn shifted_fn(y: Seq<int>, s: int) -> spec_fn(int) -> int {
    |k: int| at(y, k - s)
}

/// The coefficients of `y`, moved up by `s` places and multiplied by `c`.
pub open spec fn scaled_fn(y: Seq<int>, s: int, c: int) -> spec_fn(int) -> int {
    |k: int| c * at(y, k - s)
}

/// The value of the product of two polynomials of thirty-two coefficients
/// is the product of their values.
pub proof fn lemma_conv_value(x: Seq<int>, y: Seq<int>, n: int)
    requires
        x.len() == 32,
        y.len() == 32,
        0 <= n <= 32,
    ensures
        fsum(conv_fn(x, y, n), 63) == fsum(seq_fn(x), n) * fsum(seq_fn(y), 32),
    decreases n,
{
    let yv = fsum(seq_fn(y), 32);
    if n == 0 {
        lemma_fsum_extend(conv_fn(x, y, 0), 0, 63);
        assert(0 * yv == 0);
    } else {
        let s = n - 1;
        lemma_conv_value(x, y, s);
        let moved = shifted_fn(y, s);
        let scaled = scaled_fn(y, s, x[s]);
        lemma_fsum_shift(seq_fn(y), moved, s, 32);
        lemma_fsum_extend(moved, s + 32, 63);
        lemma_fsum_scale(moved, scaled, x[s], 63);
        assert forall|k: int| 0 <= k < 63 implies #[trigger] conv_fn(x, y, n)(k) == conv_fn(
            x,
            y,
            s,
        )(k) + scaled(k) by {
            assert(at(x, s) * at(y, k - s) == x[s] * at(y, k - s));
        }
        lemma_fsum_add(conv_fn(x, y, s), scaled, conv_fn(x, y, n), 63);
        let ps = pow256(s as nat) as int;
        let xs = fsum(seq_fn(x), s);
        assert(xs * yv + x[s] * (ps * yv) == (xs + x[s] * ps) * yv) by (nonlinear_arith);
    }
}

/// Coefficients of products of bytes are small.
pub proof fn lemma_conv_bound(x: Seq<u8>, y: Seq<u8>, k: int, n: int)
    requires
        0 <= n,
    ensures
        0 <= conv(byte_ints(x), byte_ints(y), k, n) <= n * 65025,
    decreases n,
{
    if n > 0 {
        lemma_conv_bound(x, y, k, n - 1);
        let a = at(byte_ints(x), n - 1);
        let b = at(byte_ints(y), k - (n - 1));
        assert(0 <= a * b <= 65025) by (nonlinear_arith)
            requires
                0 <= a <= 255,
                0 <= b <= 255,
        ;
    }
}

/// A polynomial of sixty-three small coefficients that vanishes at the base
/// divides by `X - 256` step by step, up to step `k`, with small
/// coefficients.
pub proof fn lemma_division_steps(v: Seq<int>, k: int)
    requires
        v.len() == 63,
        fsum(seq_fn(v), 63) == 0,
        forall|j: int| 0 <= j < 63 ==> -4194304 < #[trigger] v[j] < 4194304,
        0 <= k <= 62,
    ensures
        fsum(seq_fn(v), k) == -quotient_coeff(v, k - 1) * pow256(k as nat),
        -16513 < quotient_coeff(v, k - 1) < 16513,
        forall|j: int| 0 <= j < k ==> #[trigger] step_exact(v, j),
    decreases k,
{
    if k == 0 {
        assert(0 * pow256(0) == 0);
    } else {
        let i = k - 1;
        lemma_division_steps(v, i);
        let f = seq_fn(v);
        let below = quotient_coeff(v, i - 1);
        let d = below - v[i];
        let pi = pow256(i as nat) as int;
        let pk = pow256(k as nat) as int;
        lemma_pow256(i as nat);
        lemma_fsum_tail(f, k, 63);
        let rest = tsum(f, k, 63);
        assert(fsum(f, k) == -d * pi) by {
            assert(f(i) == v[i]);
            assert(-below * pi + v[i] * pi == -d * pi) by (nonlinear_arith)
                requires
                    d == below - v[i],
            ;
        }
        assert(pi * d == pi * (256 * rest)) by (nonlinear_arith)
            requires
                -d * pi + pk * rest == 0,
                pk == 256 * pi,
        ;
        lemma_mul_equality_converse(pi, d, 256 * rest);
        assert(d % 256 == 0 && d / 256 == rest);
        assert(quotient_coeff(v, i) == rest);
        assert(fsum(f, k) == -rest * pk) by (nonlinear_arith)
            requires
                fsum(f, k) == -d * pi,
                d == 256 * rest,
                pk == 256 * pi,
        ;
        assert(step_exact(v, i));
        assert forall|j: int| 0 <= j < k implies #[trigger] step_exact(v, j) by {}
    }
}

/// A polynomial of sixty-three small coefficients that vanishes at the base
/// divides by `X - 256` with coefficients that the witness columns can
/// store.
pub proof fn lemma_vanishing_divides(v: Seq<int>)
    requires
        v.len() == 63,
        fsum(seq_fn(v), 63) == 0,
        forall|j: int| 0 <= j < 63 ==> -4194304 < #[trigger] v[j] < 4194304,
    ensures
        division_exact(v),
{
    lemma_division_steps(v, 62);
    let f = seq_fn(v);
    let p = pow256(62) as int;
    lemma_pow256(62);
    assert(f(62) == v[62]);
    assert(p * v[62] == p * quotient_coeff(v, 61)) by (nonlinear_arith)
        requires
            -quotient_coeff(v, 61) * p + v[62] * p == 0,
    ;
    lemma_mul_equality_converse(p, v[62], quotient_coeff(v, 61));
}

/// The coefficients of the sum of the polynomials `x` and `y`.
pub open spec fn sum_fn(x: Seq<int>, y: Seq<int>) -> spec_fn(int) -> int {
    |k: int| at(x, k) + at(y, k)
}

/// The coefficients of the sum, or of the product, of the polynomials `x`
/// and `y`.
pub open spec fn side_fn(x: Seq<int>, y: Seq<int>, multiply: bool) -> spec_fn(int) -> int {
    if multiply {
        conv_fn(x, y, 32)
    } else {
        sum_fn(x, y)
    }
}

/// The coefficients of the sum or product of `x` and `y`, less `t`.
pub open spec fn reduced_fn(x: Seq<int>, y: Seq<int>, t: Seq<int>, multiply: bool) -> spec_fn(
    int,
) -> int {
    |k: int| side_fn(x, y, multiply)(k) - at(t, k)
}

/// The value of the polynomial of thirty-two bytes, over any number of
/// terms from thirty-two on, is the integer that the bytes spell.
pub proof fn lemma_limbs_value(s: Seq<u8>, n: int)
    requires
        s.len() == 32,
        32 <= n,
    ensures
        fsum(seq_fn(byte_ints(s)), n) == le_value(s),
{
    lemma_fsum_le_value(s, 32);
    assert(s.take(32) =~= s);
    lemma_fsum_extend(seq_fn(byte_ints(s)), 32, n);
}

/// The sixty-three coefficients of the vanishing polynomial of the limbs
/// `x`, `y`, `t`, `q`, `m`.
pub open spec fn vanishing_seq(
    x: Seq<u8>,
    y: Seq<u8>,
    t: Seq<u8>,
    q: Seq<u8>,
    m: Seq<u8>,
    multiply: bool,
) -> Seq<int> {
    Seq::new(
        63,
        |k: int|
            vanishing_coeff(
                byte_ints(x),
                byte_ints(y),
                byte_ints(t),
                byte_ints(q),
                byte_ints(m),
                multiply,
                k,
            ),
    )
}

/// The value of the vanishing polynomial at the base is the difference of
/// the two sides of the identity over the integers, and its coefficients are
/// small.
pub proof fn lemma_vanishing_value(
    x: Seq<u8>,
    y: Seq<u8>,
    t: Seq<u8>,
    q: Seq<u8>,
    m: Seq<u8>,
    multiply: bool,
)
    requires
        x.len() == 32,
        y.len() == 32,
        t.len() == 32,
        q.len() == 32,
        m.len() == 32,
    ensures
        fsum(seq_fn(vanishing_seq(x, y, t, q, m, multiply)), 63) == (if multiply {
            le_value(x) * le_value(y)
        } else {
            le_value(x) + le_value(y)
        }) - le_value(t) - le_value(q) * le_value(m),
        forall|j: int|
            0 <= j < 63 ==> -4194304 < #[trigger] vanishing_seq(x, y, t, q, m, multiply)[j]
                < 4194304,
{
    let xi = byte_ints(x);
    let yi = byte_ints(y);
    let ti = byte_ints(t);
    let qi = byte_ints(q);
    let mi = byte_ints(m);
    let v = vanishing_seq(x, y, t, q, m, multiply);
    let side = side_fn(xi, yi, multiply);
    let reduced = reduced_fn(xi, yi, ti, multiply);
    let scaled = conv_fn(qi, mi, 32);
    lemma_limbs_value(x, 32);
    lemma_limbs_value(y, 32);
    lemma_limbs_value(x, 63);
    lemma_limbs_value(y, 63);
    lemma_limbs_value(t, 63);
    lemma_limbs_value(q, 32);
    lemma_limbs_value(m, 32);
    if multiply {
        lemma_conv_value(xi, yi, 32);
    } else {
        lemma_fsum_add(seq_fn(xi), seq_fn(yi), side, 63);
    }
    lemma_conv_value(qi, mi, 32);
    assert forall|k: int| 0 <= k < 63 implies #[trigger] reduced(k) == side(k) - seq_fn(ti)(k) by {}
    lemma_fsum_sub(side, seq_fn(ti), reduced, 63);
    assert forall|k: int| 0 <= k < 63 implies #[trigger] seq_fn(v)(k) == reduced(k) - scaled(k) by {
        assert(v[k] == vanishing_coeff(xi, yi, ti, qi, mi, multiply, k));
    }
    lemma_fsum_sub(reduced, scaled, seq_fn(v), 63);
    assert forall|j: int| 0 <= j < 63 implies -4194304 < #[trigger] v[j] < 4194304 by {
        lemma_conv_bound(x, y, j, 32);
        lemma_conv_bound(q, m, j, 32);
        assert(v[j] == vanishing_coeff(xi, yi, ti, qi, mi, multiply, j));
    }
}

/// The vanishing polynomial of an identity that holds over the integers
/// divides by `X - 256` with coefficients that the witness columns can
/// store: where the limbs `x`, `y`, `t`, `q`, `m` spell integers with
/// `x · y = q · m + t`, or `x + y = q · m + t`.
pub proof fn lemma_vanishing_is_exact(
    x: Seq<u8>,
    y: Seq<u8>,
    t: Seq<u8>,
    q: Seq<u8>,
    m: Seq<u8>,
    multiply: bool,
)
    requires
        x.len() == 32,
        y.len() == 32,
        t.len() == 32,
        q.len() == 32,
        m.len() == 32,
        (if multiply {
            le_value(x) * le_value(y)
        } else {
            le_value(x) + le_value(y)
        }) == le_value(q) * le_value(m) + le_value(t),
    ensures
        division_exact(vanishing_seq(x, y, t, q, m, multiply)),
{
    lemma_vanishing_value(x, y, t, q, m, multiply);
    lemma_vanishing_divides(vanishing_seq(x, y, t, q, m, multiply));
}

/// The coefficients of the stored quotient times `X - 256`.
pub open spec fn product_fn(low: Seq<int>, high: Seq<int>) -> spec_fn(int) -> int {
    |k: int| witness_coeff(low, high, k - 1) - 256 * witness_coeff(low, high, k)
}

/// The value at the base of the first `n` terms of a polynomial times
/// `X - 256` is what its last term leaves.
proof fn lemma_telescope(low: Seq<int>, high: Seq<int>, n: int)
    requires
        0 <= n,
    ensures
        fsum(product_fn(low, high), n) == -witness_coeff(low, high, n - 1) * pow256(n as nat),
    decreases n,
{
    if n == 0 {
        assert(0 * pow256(0) == 0);
    } else {
        lemma_telescope(low, high, n - 1);
        lemma_pow256((n - 1) as nat);
        let below = witness_coeff(low, high, n - 2);
        let here = witness_coeff(low, high, n - 1);
        let pb = pow256((n - 1) as nat) as int;
        let pn = pow256(n as nat) as int;
        assert(-below * pb + (below - 256 * here) * pb == -here * pn) by (nonlinear_arith)
            requires
                pn == 256 * pb,
        ;
    }
}

/// The identities of the limbs are sound: in a field of more than two to the
/// twenty-sixth elements, columns of bytes that satisfy them witness the
/// identity over the integers, `x · y = q · m + t` or `x + y = q · m + t`.
pub proof fn lemma_limb_relation_sound(
    x: Seq<u8>,
    y: Seq<u8>,
    t: Seq<u8>,
    q: Seq<u8>,
    m: Seq<u8>,
    low: Seq<int>,
    high: Seq<int>,
    multiply: bool,
    p: int,
)
    requires
        p > 0x400_0000,
        x.len() == 32,
        y.len() == 32,
        t.len() == 32,
        q.len() == 32,
        m.len() == 32,
        low.len() == 62,
        high.len() == 62,
        forall|k: int| 0 <= k < 62 ==> 0 <= #[trigger] low[k] < 256,
        forall|k: int| 0 <= k < 62 ==> 0 <= #[trigger] high[k] < 256,
        limb_relation(
            byte_ints(x),
            byte_ints(y),
            byte_ints(t),
            byte_ints(q),
            byte_ints(m),
            low,
            high,
            multiply,
            p,
        ),
    ensures
        (if multiply {
            le_value(x) * le_value(y)
        } else {
            le_value(x) + le_value(y)
        }) == le_value(q) * le_value(m) + le_value(t),
{
    let v = vanishing_seq(x, y, t, q, m, multiply);
    lemma_vanishing_value(x, y, t, q, m, multiply);
    let product = product_fn(low, high);
    assert forall|k: int| 0 <= k < 63 implies #[trigger] seq_fn(v)(k) == product(k) by {
        assert(coefficient_vanishes(
            byte_ints(x),
            byte_ints(y),
            byte_ints(t),
            byte_ints(q),
            byte_ints(m),
            low,
            high,
            multiply,
            k,
            p,
        ));
        assert(-4194304 < v[k] < 4194304);
        let below = witness_coeff(low, high, k - 1);
        let here = witness_coeff(low, high, k);
        assert(-32768 <= below < 32768) by {
            if 0 <= k - 1 < 62 {
                assert(0 <= low[k - 1] < 256 && 0 <= high[k - 1] < 256);
            }
        }
        assert(-32768 <= here < 32768) by {
            if 0 <= k < 62 {
                assert(0 <= low[k] < 256 && 0 <= high[k] < 256);
            }
        }
        lemma_small_vanishes(v[k] - (below - 256 * here), p);
    }
    lemma_fsum_same(seq_fn(v), product, 63);
    lemma_telescope(low, high, 63);
    assert(witness_coeff(low, high, 62) == 0);
    assert(0 * pow256(63) == 0);
}

/// Polynomials with equal coefficients have equal values.
proof fn lemma_fsum_same(f: spec_fn(int) -> int, g: spec_fn(int) -> int, n: int)
    requires
        forall|k: int| 0 <= k < n ==> #[trigger] f(k) == g(k),
    ensures
        fsum(f, n) == fsum(g, n),
    decreases n,
{
    if n > 0 {
        lemma_fsum_same(f, g, n - 1);
    }
}

} // verus!
