//! The interface through which a chip states its constraints.

use vstd::prelude::*;
use vstd::arithmetic::div_mod::lemma_small_mod;
use crate::bytes::{ByteOpcode, byte_lookup_holds};
use crate::word::Word;

verus! {

/// Whether `x` is zero in the field of characteristic `p`.
pub open spec fn vanishes(x: int, p: int) -> bool {
    p > 0 && x % p == 0
}

/// Whether the product of `x` and `y` is zero in the field of characteristic
/// `p`.
pub open spec fn product_vanishes(x: int, y: int, p: int) -> bool {
    vanishes(x * y, p)
}

/// Whether `p` is the characteristic of a field, as far as an identity can
/// tell: a product is zero only where a factor is.
pub open spec fn is_field(p: int) -> bool {
    &&& p > 1
    &&& forall|x: int, y: int| #[trigger]
        product_vanishes(x, y, p) ==> vanishes(x, p) || vanishes(y, p)
}

/// What is zero in the field and small is zero.
pub proof fn lemma_small_vanishes(x: int, p: int)
    requires
        vanishes(x, p),
        -p < x < p,
    ensures
        x == 0,
{
    if x > 0 {
        lemma_small_mod(x as nat, p as nat);
    } else if x < 0 {
        lemma_small_mod((-x) as nat, p as nat);
        vstd::arithmetic::div_mod::lemma_mod_multiples_vanish(1, x, p);
        assert((p + x) % p == x % p);
        lemma_small_mod((p + x) as nat, p as nat);
    }
}

/// In a field, a small number `x` with `x · (x - a)` zero is zero or `a`.
pub proof fn lemma_root(x: int, a: int, p: int)
    requires
        is_field(p),
        vanishes(x * (x - a), p),
        -p < x < p,
        -p < x - a < p,
    ensures
        x == 0 || x == a,
{
    assert(product_vanishes(x, x - a, p));
    if vanishes(x, p) {
        lemma_small_vanishes(x, p);
    } else {
        lemma_small_vanishes(x - a, p);
    }
}

/// In a field, where a product of small numbers is zero, one of them is.
pub proof fn lemma_factor(x: int, y: int, p: int)
    requires
        is_field(p),
        vanishes(x * y, p),
        -p < x < p,
        -p < y < p,
    ensures
        x == 0 || y == 0,
{
    assert(product_vanishes(x, y, p));
    if vanishes(x, p) {
        lemma_small_vanishes(x, p);
    } else {
        lemma_small_vanishes(y, p);
    }
}

/// A lookup that is sent once is answered by a row of the table; of cells
/// below the characteristic, by the cells themselves.
pub proof fn lemma_lookup_sent(
    opcode: ByteOpcode,
    a1: int,
    a2: int,
    b: int,
    c: int,
    p: int,
)
    requires
        p > 1,
        byte_lookup_holds(opcode, a1, a2, b, c, 1, p),
        0 <= a1 < p,
        0 <= a2 < p,
        0 <= b < p,
        0 <= c < p,
    ensures
        crate::bytes::byte_row(opcode, a1, a2, b, c),
{
    lemma_small_mod(1, p as nat);
    lemma_small_mod(a1 as nat, p as nat);
    lemma_small_mod(a2 as nat, p as nat);
    lemma_small_mod(b as nat, p as nat);
    lemma_small_mod(c as nat, p as nat);
}

/// Whether every one of `cells` is a residue of the field.
#[verifier::opaque]
pub open spec fn canonical(cells: Seq<int>, p: int) -> bool {
    forall|i: int| 0 <= i < cells.len() ==> 0 <= #[trigger] cells[i] < p
}

/// Whether every one of `cells` is a byte.
#[verifier::opaque]
pub open spec fn all_bytes(cells: Seq<int>) -> bool {
    forall|i: int| 0 <= i < cells.len() ==> 0 <= #[trigger] cells[i] < 256
}

/// The lanes of a word are bytes, and residues of every field that holds a
/// byte.
pub proof fn lemma_lanes_are_bytes(x: u32, p: int)
    requires
        p >= 256,
    ensures
        all_bytes(crate::word::lanes(x)),
        canonical(crate::word::lanes(x), p),
        crate::word::lanes(x).len() == 4,
{
    reveal(canonical);
    reveal(all_bytes);
    crate::word::lemma_lanes(x);
}

/// The four cells of a word that is range-checked on a real row are bytes.
pub proof fn lemma_range_checked(w: Seq<int>, p: int)
    requires
        p > 1,
        w.len() == 4,
        canonical(w, p),
        word_in_range(w, 1, p),
    ensures
        all_bytes(w),
{
    reveal(canonical);
    reveal(all_bytes);
    lemma_small_mod(0, p as nat);
    assert(0 <= w[0] < p && 0 <= w[1] < p && 0 <= w[2] < p && 0 <= w[3] < p);
    lemma_small_mod(1, p as nat);
    lemma_small_mod(w[0] as nat, p as nat);
    lemma_small_mod(w[1] as nat, p as nat);
    lemma_small_mod(w[2] as nat, p as nat);
    lemma_small_mod(w[3] as nat, p as nat);
}

/// Whether a comparison sent with `multiplicity` holds in the field of
/// characteristic `p`: `b` is below `c`, unless it was sent zero times.
pub open spec fn field_lt_holds(b: int, c: int, multiplicity: int, p: int) -> bool {
    p > 0 && (multiplicity % p == 0 || b % p < c % p)
}

/// One obligation toward the argument that orders all accesses to memory: a
/// state of one word of memory that a row consumes or produces.
pub struct MemoryObligation {
    /// Whether the row consumes the state, which an earlier access left, or
    /// produces it.
    pub consumed: bool,
    pub shard: int,
    pub clk: int,
    pub addr: int,
    /// The four lanes of the word.
    pub value: Seq<int>,
    pub multiplicity: int,
}

/// What a builder has been told: whether every identity and every lookup
/// stated so far holds, and the obligations toward the memory argument in the
/// order in which they were stated.
pub struct BuilderState {
    pub satisfied: bool,
    pub memory: Seq<MemoryObligation>,
}

impl BuilderState {
    /// The state after an identity that holds or not is stated.
    pub open spec fn and(self, holds: bool) -> BuilderState {
        BuilderState { satisfied: self.satisfied && holds, memory: self.memory }
    }

    /// The state after an obligation toward the memory argument is stated.
    pub open spec fn with(self, obligation: MemoryObligation) -> BuilderState {
        BuilderState { satisfied: self.satisfied, memory: self.memory.push(obligation) }
    }
}

/// A sink for polynomial identities over the cells of one trace row.
///
/// A `Var` names one cell, an `Expr` is a polynomial in cells. Both denote
/// integers: cells by their canonical value, polynomials by ordinary integer
/// arithmetic on those. An identity holds when its polynomial is a multiple of
/// the field's characteristic.
pub trait ConstraintBuilder: Sized {
    type Var: Copy;

    type Expr;

    /// Characteristic of the field the identities are stated in. A builder
    /// that states nothing of its field has characteristic zero, in which
    /// nothing vanishes.
    open spec fn modulus() -> int {
        0
    }

    /// The integer that a cell denotes.
    open spec fn var_value(v: Self::Var) -> int {
        arbitrary()
    }

    /// The integer that a polynomial denotes.
    open spec fn expr_value(e: Self::Expr) -> int {
        arbitrary()
    }

    /// What has been stated so far.
    open spec fn state(&self) -> BuilderState {
        arbitrary()
    }

    fn constant(c: u32) -> (e: Self::Expr)
        ensures
            Self::expr_value(e) == c,
    ;

    fn lift(v: Self::Var) -> (e: Self::Expr)
        ensures
            Self::expr_value(e) == Self::var_value(v),
    ;

    fn plus(a: &Self::Expr, b: &Self::Expr) -> (e: Self::Expr)
        ensures
            Self::expr_value(e) == Self::expr_value(*a) + Self::expr_value(*b),
    ;

    fn minus(a: &Self::Expr, b: &Self::Expr) -> (e: Self::Expr)
        ensures
            Self::expr_value(e) == Self::expr_value(*a) - Self::expr_value(*b),
    ;

    fn times(a: &Self::Expr, b: &Self::Expr) -> (e: Self::Expr)
        ensures
            Self::expr_value(e) == Self::expr_value(*a) * Self::expr_value(*b),
    ;

    /// States that `e` is zero in the field.
    fn assert_zero(&mut self, e: &Self::Expr)
        ensures
            final(self).state() == old(self).state().and(vanishes(
                Self::expr_value(*e),
                Self::modulus(),
            )),
    ;

    /// Asks the byte table for the row `(a1, a2, b, c)` of `opcode`,
    /// `multiplicity` times.
    fn send_byte(
        &mut self,
        opcode: ByteOpcode,
        a1: &Self::Expr,
        a2: &Self::Expr,
        b: &Self::Expr,
        c: &Self::Expr,
        multiplicity: &Self::Expr,
    )
        ensures
            final(self).state() == old(self).state().and(byte_lookup_holds(
                opcode,
                Self::expr_value(*a1),
                Self::expr_value(*a2),
                Self::expr_value(*b),
                Self::expr_value(*c),
                Self::expr_value(*multiplicity),
                Self::modulus(),
            )),
    ;

    /// Asks the comparison table whether `b` is below `c`, `multiplicity`
    /// times.
    fn send_field_lt(&mut self, b: &Self::Expr, c: &Self::Expr, multiplicity: &Self::Expr)
        ensures
            final(self).state() == old(self).state().and(
                field_lt_holds(
                    Self::expr_value(*b),
                    Self::expr_value(*c),
                    Self::expr_value(*multiplicity),
                    Self::modulus(),
                ),
            ),
    ;

    /// Tells the memory argument that the row consumes, if `consumed`, or
    /// else produces the state `value` of the word at `addr`, stamped with
    /// `shard` and `clk`.
    fn memory(
        &mut self,
        consumed: bool,
        shard: &Self::Expr,
        clk: &Self::Expr,
        addr: &Self::Expr,
        value: &Word<Self::Var>,
        multiplicity: &Self::Expr,
    )
        ensures
            final(self).state() == old(self).state().with(
                (MemoryObligation {
                    consumed,
                    shard: Self::expr_value(*shard),
                    clk: Self::expr_value(*clk),
                    addr: Self::expr_value(*addr),
                    value: seq![
                        Self::var_value(value.0[0]),
                        Self::var_value(value.0[1]),
                        Self::var_value(value.0[2]),
                        Self::var_value(value.0[3]),
                    ],
                    multiplicity: Self::expr_value(*multiplicity),
                }),
            ),
    ;
}

/// The integers that the lanes of a word of cells denote.
pub open spec fn word_values<B: ConstraintBuilder>(w: Word<B::Var>) -> Seq<int> {
    seq![
        B::var_value(w.0[0]),
        B::var_value(w.0[1]),
        B::var_value(w.0[2]),
        B::var_value(w.0[3]),
    ]
}

/// The integers that a sequence of cells denotes.
pub open spec fn seq_values<B: ConstraintBuilder>(cells: Seq<B::Var>) -> Seq<int> {
    Seq::new(cells.len(), |i: int| B::var_value(cells[i]))
}

/// States that `e` is zero on the rows where `condition` is one.
pub fn assert_zero_when<B: ConstraintBuilder>(builder: &mut B, condition: B::Var, e: &B::Expr)
    ensures
        final(builder).state() == old(builder).state().and(vanishes(
            B::var_value(condition) * B::expr_value(*e),
            B::modulus(),
        )),
{
    let c = B::lift(condition);
    let gated = B::times(&c, e);
    builder.assert_zero(&gated);
}

/// States that `v` is zero or one.
pub fn assert_bool<B: ConstraintBuilder>(builder: &mut B, v: B::Var)
    ensures
        final(builder).state() == old(builder).state().and(vanishes(
            B::var_value(v) * (B::var_value(v) - 1),
            B::modulus(),
        )),
{
    let x = B::lift(v);
    let one = B::constant(1);
    let d = B::minus(&x, &one);
    let e = B::times(&x, &d);
    builder.assert_zero(&e);
}

/// Whether the four lanes of `w` are bytes wherever `multiplicity` is not
/// zero.
pub open spec fn word_in_range(w: Seq<int>, multiplicity: int, p: int) -> bool {
    &&& byte_lookup_holds(ByteOpcode::Range, 0, 0, w[0], w[1], multiplicity, p)
    &&& byte_lookup_holds(ByteOpcode::Range, 0, 0, w[2], w[3], multiplicity, p)
}

/// Bytes are in range in every field that holds a byte.
pub proof fn lemma_word_in_range(w: Seq<int>, multiplicity: int, p: int)
    requires
        p > 256,
        w.len() == 4,
        forall|i: int| 0 <= i < 4 ==> 0 <= #[trigger] w[i] < 256,
    ensures
        word_in_range(w, multiplicity, p),
{
    lemma_small_mod(0, p as nat);
    lemma_small_mod(w[0] as nat, p as nat);
    lemma_small_mod(w[1] as nat, p as nat);
    lemma_small_mod(w[2] as nat, p as nat);
    lemma_small_mod(w[3] as nat, p as nat);
}

/// Asks the byte table to range-check the four lanes of `w`.
pub fn range_check_word<B: ConstraintBuilder>(
    builder: &mut B,
    w: Word<B::Var>,
    multiplicity: B::Var,
)
    ensures
        final(builder).state() == old(builder).state().and(word_in_range(
            word_values::<B>(w),
            B::var_value(multiplicity),
            B::modulus(),
        )),
{
    let zero = B::constant(0);
    let m = B::lift(multiplicity);
    let w0 = B::lift(w.0[0]);
    let w1 = B::lift(w.0[1]);
    let w2 = B::lift(w.0[2]);
    let w3 = B::lift(w.0[3]);
    builder.send_byte(ByteOpcode::Range, &zero, &zero, &w0, &w1, &m);
    builder.send_byte(ByteOpcode::Range, &zero, &zero, &w2, &w3, &m);
}

/// Whether two words agree lane by lane in the field.
pub open spec fn words_agree(v: Seq<int>, w: Seq<int>, p: int) -> bool {
    &&& vanishes(v[0] - w[0], p)
    &&& vanishes(v[1] - w[1], p)
    &&& vanishes(v[2] - w[2], p)
    &&& vanishes(v[3] - w[3], p)
}

/// States that the lanes of `v` equal the lanes of `w`.
pub fn assert_words_agree<B: ConstraintBuilder>(builder: &mut B, v: Word<B::Var>, w: Word<B::Var>)
    ensures
        final(builder).state() == old(builder).state().and(words_agree(
            word_values::<B>(v),
            word_values::<B>(w),
            B::modulus(),
        )),
{
    builder.assert_zero(&B::minus(&B::lift(v.0[0]), &B::lift(w.0[0])));
    builder.assert_zero(&B::minus(&B::lift(v.0[1]), &B::lift(w.0[1])));
    builder.assert_zero(&B::minus(&B::lift(v.0[2]), &B::lift(w.0[2])));
    builder.assert_zero(&B::minus(&B::lift(v.0[3]), &B::lift(w.0[3])));
}

/// A word agrees with itself.
pub proof fn lemma_words_agree(w: Seq<int>, p: int)
    requires
        p > 0,
    ensures
        words_agree(w, w, p),
{
    lemma_small_mod(0, p as nat);
}

} // verus!
