//! Addition of two words modulo two to the thirty-second.

use vstd::prelude::*;
use crate::builder::{
    ConstraintBuilder, vanishes, word_values, word_in_range, assert_zero_when, assert_bool,
    range_check_word, lemma_word_in_range, is_field, canonical, all_bytes, lemma_root,
    lemma_factor, lemma_range_checked,
};
use crate::record::{ExecutionRecord, word_range_events};
use crate::bytes::ByteLookupEvent;
use crate::evaluator::RowEvaluator;
use vstd::arithmetic::div_mod::lemma_small_mod;
use crate::word::{
    Word, word_of, lane, lanes, cells, from_lanes, lemma_lanes, lemma_from_lanes_unique,
};

verus! {

/// Columns of one addition: the lanes of the sum and the carry out of each of
/// the three lower lanes.
#[derive(Clone, Copy, Debug)]
pub struct AddOperation<T> {
    pub value: Word<T>,
    pub carry: [T; 3],
}

/// The sum of `a` and `b` modulo two to the thirty-second.
pub open spec fn wrapping_sum(a: u32, b: u32) -> u32 {
    ((a as int + b as int) % 0x1_0000_0000) as u32
}

/// The carry out of lane `i` when `a` and `b` are added lane by lane, for `i`
/// below three.
pub open spec fn lane_carry(a: u32, b: u32, i: int) -> int {
    if i <= 0 {
        (lane(a, 0) + lane(b, 0)) / 256
    } else if i == 1 {
        (lane(a, 1) + lane(b, 1) + (lane(a, 0) + lane(b, 0)) / 256) / 256
    } else {
        (lane(a, 2) + lane(b, 2) + (lane(a, 1) + lane(b, 1) + (lane(a, 0) + lane(b, 0)) / 256)
            / 256) / 256
    }
}

/// The lookup events that one addition leaves: range checks of both operands
/// and of the sum.
#[verifier::opaque]
pub open spec fn add_events(a: u32, b: u32) -> Seq<ByteLookupEvent> {
    word_range_events(a) + word_range_events(b) + word_range_events(wrapping_sum(a, b))
}

/// What the difference between the lane sum and the lane of the result must
/// be: zero, or the base with the carry set.
pub open spec fn lane_adds(overflow: int, carry: int, is_real: int, p: int) -> bool {
    &&& vanishes(is_real * (overflow * (overflow - 256)), p)
    &&& vanishes(is_real * (carry * (overflow - 256)), p)
    &&& vanishes(is_real * ((carry - 1) * overflow), p)
    &&& vanishes(is_real * (carry * (carry - 1)), p)
}

/// The identities of one addition over the lanes `a` and `b` of the operands,
/// the lanes `value` of the sum and the three carries.
#[verifier::opaque]
pub open spec fn add_relation(
    a: Seq<int>,
    b: Seq<int>,
    value: Seq<int>,
    carry: Seq<int>,
    is_real: int,
    p: int,
) -> bool {
    &&& lane_adds(a[0] + b[0] - value[0], carry[0], is_real, p)
    &&& lane_adds(a[1] + b[1] - value[1] + carry[0], carry[1], is_real, p)
    &&& lane_adds(a[2] + b[2] - value[2] + carry[1], carry[2], is_real, p)
    &&& vanishes(
        is_real * ((a[3] + b[3] - value[3] + carry[2]) * ((a[3] + b[3] - value[3] + carry[2])
            - 256)),
        p,
    )
    &&& vanishes(is_real * (is_real - 1), p)
    &&& word_in_range(a, is_real, p)
    &&& word_in_range(b, is_real, p)
    &&& word_in_range(value, is_real, p)
}

/// The three carries of a row of trace cells, as integers.
pub open spec fn carry_cells(carry: [u32; 3]) -> Seq<int> {
    seq![carry[0] as int, carry[1] as int, carry[2] as int]
}

/// The integers that the three carry cells denote.
pub open spec fn carry_values<B: ConstraintBuilder>(carry: [B::Var; 3]) -> Seq<int> {
    seq![B::var_value(carry[0]), B::var_value(carry[1]), B::var_value(carry[2])]
}

impl<T: Copy> AddOperation<T> {
    /// The cells of the columns in the order of a row.
    pub open spec fn flat(self) -> Seq<T> {
        self.value.0@ + self.carry@
    }

    /// The columns whose cells are the seven cells of `row` from `start` on.
    pub fn from_row(row: &[T], start: usize) -> (cols: Self)
        requires
            start + 7 <= row.len(),
        ensures
            cols.flat() == row@.subrange(start as int, start + 7),
    {
        let cols = AddOperation {
            value: Word(crate::trace::read_array(row, start)),
            carry: crate::trace::read_array(row, start + 4),
        };
        assert(cols.flat() =~= row@.subrange(start as int, start + 7));
        cols
    }

    /// Appends the cells of the columns to `row`.
    pub fn append_to(&self, row: &mut Vec<T>)
        ensures
            final(row)@ == old(row)@ + self.flat(),
            self.flat().len() == 7,
    {
        crate::trace::append_array(&self.value.0, row);
        crate::trace::append_array(&self.carry, row);
        assert(row@ =~= old(row)@ + self.flat());
    }
}

impl Default for AddOperation<u32> {
    /// The columns of zero plus zero.
    fn default() -> (cols: Self)
        ensures
            cols == Self::witness(0, 0),
    {
        let cols = AddOperation { value: Word::default(), carry: [0, 0, 0] };
        reveal(AddOperation::witness);
        assert(cols.carry =~= Self::witness(0, 0).carry);
        cols
    }
}

impl AddOperation<u32> {
    /// The columns of the addition of `a` and `b`.
    #[verifier::opaque]
    pub open spec fn witness(a: u32, b: u32) -> AddOperation<u32> {
        AddOperation {
            value: word_of(wrapping_sum(a, b)),
            carry: [
                lane_carry(a, b, 0) as u32,
                lane_carry(a, b, 1) as u32,
                lane_carry(a, b, 2) as u32,
            ],
        }
    }

    /// Fills the columns for `a + b`, leaves the range checks of operands and
    /// sum in `record`, and returns the sum.
    pub fn populate(&mut self, record: &mut ExecutionRecord, a: u32, b: u32) -> (sum: u32)
        ensures
            sum == wrapping_sum(a, b),
            *final(self) == Self::witness(a, b),
            final(record).byte_lookup_events@ == old(record).byte_lookup_events@ + add_events(
                a,
                b,
            ),
            final(record).same_but_lookups(*old(record)),
    {
        let expected: u32 = Self::sum(a, b);
        let cols = AddOperation { value: Word::from_u32(expected), carry: Self::carries(a, b) };
        *self = cols;
        Self::range_checks(record, a, b);
        proof {
            reveal(AddOperation::witness);
            assert(cols.carry =~= Self::witness(a, b).carry);
        }
        expected
    }

    /// The sum of two words modulo two to the thirty-second.
    fn sum(a: u32, b: u32) -> (r: u32)
        ensures
            r == wrapping_sum(a, b),
    {
        a.wrapping_add(b)
    }

    /// The carries out of the three lower lanes.
    fn carries(a: u32, b: u32) -> (carry: [u32; 3])
        ensures
            carry[0] as int == lane_carry(a, b, 0),
            carry[1] as int == lane_carry(a, b, 1),
            carry[2] as int == lane_carry(a, b, 2),
    {
        let a0: u32 = crate::word::byte(a, 0) as u32;
        let a1: u32 = crate::word::byte(a, 1) as u32;
        let a2: u32 = crate::word::byte(a, 2) as u32;
        let b0: u32 = crate::word::byte(b, 0) as u32;
        let b1: u32 = crate::word::byte(b, 1) as u32;
        let b2: u32 = crate::word::byte(b, 2) as u32;
        let c0: u32 = if a0 + b0 > 255 {
            1
        } else {
            0
        };
        let c1: u32 = if a1 + b1 + c0 > 255 {
            1
        } else {
            0
        };
        let c2: u32 = if a2 + b2 + c1 > 255 {
            1
        } else {
            0
        };
        [c0, c1, c2]
    }

    /// Leaves the range checks of the operands and of their sum in `record`.
    fn range_checks(record: &mut ExecutionRecord, a: u32, b: u32)
        ensures
            final(record).byte_lookup_events@ == old(record).byte_lookup_events@ + add_events(
                a,
                b,
            ),
            final(record).same_but_lookups(*old(record)),
    {
        let expected: u32 = Self::sum(a, b);
        record.add_word_range_checks(a);
        record.add_word_range_checks(b);
        record.add_word_range_checks(expected);
        proof {
            reveal(add_events);
            assert(record.byte_lookup_events@ =~= old(record).byte_lookup_events@ + add_events(
                a,
                b,
            ));
        }
    }

    /// States the identities of one addition on the rows where `is_real` is
    /// one.
    pub fn eval<B: ConstraintBuilder>(
        builder: &mut B,
        a: Word<B::Var>,
        b: Word<B::Var>,
        cols: AddOperation<B::Var>,
        is_real: B::Var,
    )
        ensures
            final(builder).state() == old(builder).state().and(add_relation(
                word_values::<B>(a),
                word_values::<B>(b),
                word_values::<B>(cols.value),
                carry_values::<B>(cols.carry),
                B::var_value(is_real),
                B::modulus(),
            )),
    {
        proof {
            reveal(add_relation);
        }
        let base = B::constant(256);
        // Lane zero.
        let s0 = B::plus(&B::lift(a.0[0]), &B::lift(b.0[0]));
        let overflow0 = B::minus(&s0, &B::lift(cols.value.0[0]));
        Self::eval_lane(builder, &overflow0, cols.carry[0], is_real);
        // Lane one.
        let s1 = B::plus(&B::lift(a.0[1]), &B::lift(b.0[1]));
        let d1 = B::minus(&s1, &B::lift(cols.value.0[1]));
        let overflow1 = B::plus(&d1, &B::lift(cols.carry[0]));
        Self::eval_lane(builder, &overflow1, cols.carry[1], is_real);
        // Lane two.
        let s2 = B::plus(&B::lift(a.0[2]), &B::lift(b.0[2]));
        let d2 = B::minus(&s2, &B::lift(cols.value.0[2]));
        let overflow2 = B::plus(&d2, &B::lift(cols.carry[1]));
        Self::eval_lane(builder, &overflow2, cols.carry[2], is_real);
        // Lane three: its carry leaves the word.
        let s3 = B::plus(&B::lift(a.0[3]), &B::lift(b.0[3]));
        let d3 = B::minus(&s3, &B::lift(cols.value.0[3]));
        let overflow3 = B::plus(&d3, &B::lift(cols.carry[2]));
        let less3 = B::minus(&overflow3, &base);
        let either3 = B::times(&overflow3, &less3);
        assert_zero_when(builder, is_real, &either3);
        assert_bool(builder, is_real);
        range_check_word(builder, a, is_real);
        range_check_word(builder, b, is_real);
        range_check_word(builder, cols.value, is_real);
    }

    /// States that `overflow` is zero with `carry` zero, or the base with
    /// `carry` one.
    fn eval_lane<B: ConstraintBuilder>(
        builder: &mut B,
        overflow: &B::Expr,
        carry: B::Var,
        is_real: B::Var,
    )
        ensures
            final(builder).state() == old(builder).state().and(lane_adds(
                B::expr_value(*overflow),
                B::var_value(carry),
                B::var_value(is_real),
                B::modulus(),
            )),
    {
        let base = B::constant(256);
        let one = B::constant(1);
        let c = B::lift(carry);
        let less = B::minus(overflow, &base);
        let either = B::times(overflow, &less);
        assert_zero_when(builder, is_real, &either);
        let set = B::times(&c, &less);
        assert_zero_when(builder, is_real, &set);
        let unset = B::times(&B::minus(&c, &one), overflow);
        assert_zero_when(builder, is_real, &unset);
        let boolean = B::times(&c, &B::minus(&c, &one));
        assert_zero_when(builder, is_real, &boolean);
    }
}

/// A lane whose overflow and carry agree satisfies its identities.
proof fn lemma_lane_adds(overflow: int, carry: int, p: int)
    requires
        p > 0,
        (overflow == 0 && carry == 0) || (overflow == 256 && carry == 1),
    ensures
        lane_adds(overflow, carry, 1, p),
{
    assert(overflow * (overflow - 256) == 0) by (nonlinear_arith)
        requires
            overflow == 0 || overflow == 256,
    ;
    assert(carry * (overflow - 256) == 0) by (nonlinear_arith)
        requires
            carry == 0 || overflow == 256,
    ;
    assert((carry - 1) * overflow == 0) by (nonlinear_arith)
        requires
            carry == 1 || overflow == 0,
    ;
    assert(carry * (carry - 1) == 0) by (nonlinear_arith)
        requires
            carry == 0 || carry == 1,
    ;
}

/// Adding two words lane by lane with carries gives the lanes of their sum
/// and, out of the top lane, whether the sum wrapped.
proof fn lemma_carry_chain(a0: int, a1: int, a2: int, a3: int, b0: int, b1: int, b2: int, b3: int)
    requires
        0 <= a0 < 256,
        0 <= a1 < 256,
        0 <= a2 < 256,
        0 <= a3 < 256,
        0 <= b0 < 256,
        0 <= b1 < 256,
        0 <= b2 < 256,
        0 <= b3 < 256,
    ensures
        ({
            let c0 = (a0 + b0) / 256;
            let c1 = (a1 + b1 + c0) / 256;
            let c2 = (a2 + b2 + c1) / 256;
            let c3 = (a3 + b3 + c2) / 256;
            &&& from_lanes(
                (a0 + b0) % 256,
                (a1 + b1 + c0) % 256,
                (a2 + b2 + c1) % 256,
                (a3 + b3 + c2) % 256,
            ) + 0x1_0000_0000 * c3 == from_lanes(a0, a1, a2, a3) + from_lanes(b0, b1, b2, b3)
            &&& 0 <= c0 <= 1
            &&& 0 <= c1 <= 1
            &&& 0 <= c2 <= 1
            &&& 0 <= c3 <= 1
        }),
{
}

/// The lanes of a sum are the lane sums with carries, reduced to bytes.
pub proof fn lemma_sum_lanes(a: u32, b: u32)
    ensures
        lane(a, 0) + lane(b, 0) == lane(wrapping_sum(a, b), 0) + 256 * lane_carry(a, b, 0),
        lane(a, 1) + lane(b, 1) + lane_carry(a, b, 0) == lane(wrapping_sum(a, b), 1) + 256
            * lane_carry(a, b, 1),
        lane(a, 2) + lane(b, 2) + lane_carry(a, b, 1) == lane(wrapping_sum(a, b), 2) + 256
            * lane_carry(a, b, 2),
        lane(a, 3) + lane(b, 3) + lane_carry(a, b, 2) == lane(wrapping_sum(a, b), 3) || lane(a, 3)
            + lane(b, 3) + lane_carry(a, b, 2) == lane(wrapping_sum(a, b), 3) + 256,
        0 <= lane_carry(a, b, 0) <= 1,
        0 <= lane_carry(a, b, 1) <= 1,
        0 <= lane_carry(a, b, 2) <= 1,
{
    let a0 = lane(a, 0);
    let a1 = lane(a, 1);
    let a2 = lane(a, 2);
    let a3 = lane(a, 3);
    let b0 = lane(b, 0);
    let b1 = lane(b, 1);
    let b2 = lane(b, 2);
    let b3 = lane(b, 3);
    assert(from_lanes(a0, a1, a2, a3) == a && 0 <= a0 < 256 && 0 <= a1 < 256 && 0 <= a2 < 256 && 0
        <= a3 < 256) by {
        lemma_lanes(a);
    }
    assert(from_lanes(b0, b1, b2, b3) == b && 0 <= b0 < 256 && 0 <= b1 < 256 && 0 <= b2 < 256 && 0
        <= b3 < 256) by {
        lemma_lanes(b);
    }
    lemma_carry_chain(a0, a1, a2, a3, b0, b1, b2, b3);
    let c0 = (a0 + b0) / 256;
    let c1 = (a1 + b1 + c0) / 256;
    let c2 = (a2 + b2 + c1) / 256;
    let c3 = (a3 + b3 + c2) / 256;
    let w0 = (a0 + b0) % 256;
    let w1 = (a1 + b1 + c0) % 256;
    let w2 = (a2 + b2 + c1) % 256;
    let w3 = (a3 + b3 + c2) % 256;
    let v = wrapping_sum(a, b);
    let w = from_lanes(w0, w1, w2, w3);
    assert(0 <= w < 0x1_0000_0000);
    assert(v == w) by {
        assert(w + 0x1_0000_0000 * c3 == a + b);
        assert(c3 == 0 || c3 == 1);
    }
    lemma_from_lanes_unique(w0, w1, w2, w3, v);
}

/// The columns that `populate` fills satisfy the identities that `eval`
/// states, whether the row is real or not, in every field that holds a byte.
pub proof fn lemma_add_witness_satisfies(a: u32, b: u32, is_real: int, p: int)
    requires
        p > 256,
        is_real == 0 || is_real == 1,
    ensures
        add_relation(
            lanes(a),
            lanes(b),
            cells(AddOperation::witness(a, b).value),
            carry_cells(AddOperation::witness(a, b).carry),
            is_real,
            p,
        ),
        AddOperation::witness(a, b).value == word_of(wrapping_sum(a, b)),
{
    reveal(AddOperation::witness);
    if is_real == 0 {
        lemma_add_unconstrained(
            lanes(a),
            lanes(b),
            cells(AddOperation::witness(a, b).value),
            carry_cells(AddOperation::witness(a, b).carry),
            p,
        );
    } else {
        reveal(add_relation);
        lemma_lanes(a);
        lemma_lanes(b);
        lemma_lanes(wrapping_sum(a, b));
        lemma_sum_lanes(a, b);
        let v = wrapping_sum(a, b);
        let o0 = lane(a, 0) + lane(b, 0) - lane(v, 0);
        let o1 = lane(a, 1) + lane(b, 1) - lane(v, 1) + lane_carry(a, b, 0);
        let o2 = lane(a, 2) + lane(b, 2) - lane(v, 2) + lane_carry(a, b, 1);
        let o3 = lane(a, 3) + lane(b, 3) - lane(v, 3) + lane_carry(a, b, 2);
        lemma_lane_adds(o0, lane_carry(a, b, 0), p);
        lemma_lane_adds(o1, lane_carry(a, b, 1), p);
        lemma_lane_adds(o2, lane_carry(a, b, 2), p);
        assert(o3 * (o3 - 256) == 0) by (nonlinear_arith)
            requires
                o3 == 0 || o3 == 256,
        ;
        lemma_word_in_range(lanes(a), 1, p);
        lemma_word_in_range(lanes(b), 1, p);
        lemma_word_in_range(cells(AddOperation::witness(a, b).value), 1, p);
    }
}

/// The integer that four lanes spell.
pub open spec fn word_from(w: Seq<int>) -> int {
    from_lanes(w[0], w[1], w[2], w[3])
}

/// What a lane that satisfies its identities is: the overflow is the carry
/// times the base, and the carry is zero or one.
proof fn lemma_lane_sound(overflow: int, carry: int, p: int)
    requires
        is_field(p),
        p > 1024,
        lane_adds(overflow, carry, 1, p),
        -256 < overflow < 512,
        0 <= carry < p,
    ensures
        carry == 0 || carry == 1,
        overflow == 256 * carry,
{
    assert(1 * (overflow * (overflow - 256)) == overflow * (overflow - 256));
    assert(1 * (carry * (overflow - 256)) == carry * (overflow - 256));
    assert(1 * ((carry - 1) * overflow) == (carry - 1) * overflow);
    assert(1 * (carry * (carry - 1)) == carry * (carry - 1));
    lemma_root(carry, 1, p);
    lemma_root(overflow, 256, p);
    if carry == 1 {
        lemma_factor(carry, overflow - 256, p);
    } else {
        lemma_factor(carry - 1, overflow, p);
    }
}

/// The identities of an addition are sound: in a field of more than a
/// thousand and twenty-four elements, columns that satisfy them on a real
/// row hold bytes, and the lanes of the sum spell the sum of the operands
/// modulo two to the thirty-second.
pub proof fn lemma_add_sound(
    a: Seq<int>,
    b: Seq<int>,
    value: Seq<int>,
    carry: Seq<int>,
    p: int,
)
    requires
        is_field(p),
        p > 1024,
        a.len() == 4,
        b.len() == 4,
        value.len() == 4,
        carry.len() == 3,
        canonical(a, p),
        canonical(b, p),
        canonical(value, p),
        canonical(carry, p),
        add_relation(a, b, value, carry, 1, p),
    ensures
        all_bytes(a),
        all_bytes(b),
        all_bytes(value),
        word_from(value) == (word_from(a) + word_from(b)) % 0x1_0000_0000,
{
    reveal(add_relation);
    lemma_range_checked(a, p);
    lemma_range_checked(b, p);
    lemma_range_checked(value, p);
    reveal(canonical);
    reveal(all_bytes);
    assert(0 <= carry[0] < p && 0 <= carry[1] < p && 0 <= carry[2] < p);
    assert(0 <= a[0] < 256 && 0 <= a[1] < 256 && 0 <= a[2] < 256 && 0 <= a[3] < 256);
    assert(0 <= b[0] < 256 && 0 <= b[1] < 256 && 0 <= b[2] < 256 && 0 <= b[3] < 256);
    assert(0 <= value[0] < 256 && 0 <= value[1] < 256 && 0 <= value[2] < 256 && 0 <= value[3]
        < 256);
    let o0 = a[0] + b[0] - value[0];
    lemma_lane_sound(o0, carry[0], p);
    let o1 = a[1] + b[1] - value[1] + carry[0];
    lemma_lane_sound(o1, carry[1], p);
    let o2 = a[2] + b[2] - value[2] + carry[1];
    lemma_lane_sound(o2, carry[2], p);
    let o3 = a[3] + b[3] - value[3] + carry[2];
    assert(1 * (o3 * (o3 - 256)) == o3 * (o3 - 256));
    lemma_root(o3, 256, p);
    let top = o3 / 256;
    assert(word_from(value) + 0x1_0000_0000 * top == word_from(a) + word_from(b));
    vstd::arithmetic::div_mod::lemma_fundamental_div_mod_converse(
        word_from(a) + word_from(b),
        0x1_0000_0000,
        top,
        word_from(value),
    );
}

/// On a row that is not real the identities of an addition ask only that the
/// flag is zero.
pub proof fn lemma_add_unconstrained(
    a: Seq<int>,
    b: Seq<int>,
    value: Seq<int>,
    carry: Seq<int>,
    p: int,
)
    requires
        p > 0,
    ensures
        add_relation(a, b, value, carry, 0, p),
{
    reveal(add_relation);
    lemma_small_mod(0, p as nat);
    assert(forall|x: int| #[trigger] (0 * x) == 0) by (nonlinear_arith);
}

/// The evaluator reads the carries as the integers they hold.
pub proof fn lemma_evaluator_reads_carries<const P: u32>(carry: [u32; 3])
    ensures
        carry_values::<RowEvaluator<P>>(carry) == carry_cells(carry),
{
    assert(carry_values::<RowEvaluator<P>>(carry) =~= carry_cells(carry));
}

} // verus!
