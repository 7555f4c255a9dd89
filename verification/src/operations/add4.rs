//! Addition of four words modulo two to the thirty-second.

use vstd::prelude::*;
use crate::record::{ExecutionRecord, word_range_events};
use crate::bytes::ByteLookupEvent;
use crate::operations::add::wrapping_sum;
use crate::builder::{
    ConstraintBuilder, vanishes, word_values, word_in_range, range_check_word, assert_bool,
    assert_zero_when, lemma_word_in_range, is_field, canonical, all_bytes, lemma_root,
    lemma_small_vanishes, lemma_range_checked,
};
use crate::operations::add::word_from;
use crate::word::{
    Word, word_of, lane, lanes, cells, from_lanes, lemma_lanes, lemma_from_lanes_unique,
};
use vstd::arithmetic::div_mod::lemma_small_mod;

verus! {

/// The sum of four words modulo two to the thirty-second.
pub open spec fn wrapping_sum4(a: u32, b: u32, c: u32, d: u32) -> u32 {
    ((a as int + b as int + c as int + d as int) % 0x1_0000_0000) as u32
}

/// The sum of lane `i` of four words.
pub open spec fn lane_sum4(a: u32, b: u32, c: u32, d: u32, i: int) -> int {
    lane(a, i) + lane(b, i) + lane(c, i) + lane(d, i)
}

/// The carry out of lane `i` when four words are added lane by lane: zero to
/// three, and zero below the lowest lane.
#[verifier::opaque]
pub open spec fn lane_carry4(a: u32, b: u32, c: u32, d: u32, i: int) -> int {
    if i < 0 {
        0
    } else if i == 0 {
        lane_sum4(a, b, c, d, 0) / 256
    } else if i == 1 {
        (lane_sum4(a, b, c, d, 1) + lane_sum4(a, b, c, d, 0) / 256) / 256
    } else if i == 2 {
        (lane_sum4(a, b, c, d, 2) + (lane_sum4(a, b, c, d, 1) + lane_sum4(a, b, c, d, 0) / 256)
            / 256) / 256
    } else {
        (lane_sum4(a, b, c, d, 3) + (lane_sum4(a, b, c, d, 2) + (lane_sum4(a, b, c, d, 1)
            + lane_sum4(a, b, c, d, 0) / 256) / 256) / 256) / 256
    }
}

/// One if `x` is `y`, and zero if not.
pub open spec fn indicator(x: int, y: int) -> u32 {
    if x == y {
        1
    } else {
        0
    }
}

/// The lookup events that one addition leaves: range checks of the four
/// operands and of the sum.
#[verifier::opaque]
pub open spec fn add4_events(a: u32, b: u32, c: u32, d: u32) -> Seq<ByteLookupEvent> {
    word_range_events(a) + word_range_events(b) + word_range_events(c) + word_range_events(d)
        + word_range_events(wrapping_sum4(a, b, c, d))
}

/// The identities of lane `i` of an addition of four words: exactly one of
/// the four flags is set, the carry is the number of the flag that is set,
/// and the lane sum with the carry from below is the lane of the result and
/// the carry times the base.
pub open spec fn add4_lane_relation(
    a: int,
    b: int,
    c: int,
    d: int,
    below: int,
    value: int,
    flags: Seq<int>,
    carry: int,
    is_real: int,
    p: int,
) -> bool {
    &&& vanishes(is_real * (flags[0] * (flags[0] - 1)), p)
    &&& vanishes(is_real * (flags[1] * (flags[1] - 1)), p)
    &&& vanishes(is_real * (flags[2] * (flags[2] - 1)), p)
    &&& vanishes(is_real * (flags[3] * (flags[3] - 1)), p)
    &&& vanishes(is_real * (flags[0] + flags[1] + flags[2] + flags[3] - 1), p)
    &&& vanishes(is_real * (carry - (flags[1] + 2 * flags[2] + 3 * flags[3])), p)
    &&& vanishes(is_real * (256 * carry - (a + b + c + d + below - value)), p)
}

/// The flags of lane `i`: whether its carry is zero, one, two, three.
pub open spec fn lane_flags(
    f0: Seq<int>,
    f1: Seq<int>,
    f2: Seq<int>,
    f3: Seq<int>,
    i: int,
) -> Seq<int> {
    seq![f0[i], f1[i], f2[i], f3[i]]
}

/// The identities of one addition of four words over the lanes of the
/// operands and the columns.
#[verifier::opaque]
pub open spec fn add4_relation(
    a: Seq<int>,
    b: Seq<int>,
    c: Seq<int>,
    d: Seq<int>,
    value: Seq<int>,
    f0: Seq<int>,
    f1: Seq<int>,
    f2: Seq<int>,
    f3: Seq<int>,
    carry: Seq<int>,
    is_real: int,
    p: int,
) -> bool {
    &&& word_in_range(a, is_real, p)
    &&& word_in_range(b, is_real, p)
    &&& word_in_range(c, is_real, p)
    &&& word_in_range(d, is_real, p)
    &&& word_in_range(value, is_real, p)
    &&& vanishes(is_real * (is_real - 1), p)
    &&& add4_lane_relation(
        a[0],
        b[0],
        c[0],
        d[0],
        0,
        value[0],
        lane_flags(f0, f1, f2, f3, 0),
        carry[0],
        is_real,
        p,
    )
    &&& add4_lane_relation(
        a[1],
        b[1],
        c[1],
        d[1],
        carry[0],
        value[1],
        lane_flags(f0, f1, f2, f3, 1),
        carry[1],
        is_real,
        p,
    )
    &&& add4_lane_relation(
        a[2],
        b[2],
        c[2],
        d[2],
        carry[1],
        value[2],
        lane_flags(f0, f1, f2, f3, 2),
        carry[2],
        is_real,
        p,
    )
    &&& add4_lane_relation(
        a[3],
        b[3],
        c[3],
        d[3],
        carry[2],
        value[3],
        lane_flags(f0, f1, f2, f3, 3),
        carry[3],
        is_real,
        p,
    )
}

/// Columns of one addition of four words: the lanes of the sum, the carry
/// out of each lane, and for each lane which of zero to three the carry is.
#[derive(Clone, Copy, Debug)]
pub struct Add4Operation<T> {
    pub value: Word<T>,
    pub is_carry_0: Word<T>,
    pub is_carry_1: Word<T>,
    pub is_carry_2: Word<T>,
    pub is_carry_3: Word<T>,
    pub carry: Word<T>,
}

impl<T: Copy> Add4Operation<T> {
    /// The cells of the columns in the order of a row.
    pub open spec fn flat(self) -> Seq<T> {
        self.value.0@ + self.is_carry_0.0@ + self.is_carry_1.0@ + self.is_carry_2.0@
            + self.is_carry_3.0@ + self.carry.0@
    }

    /// The columns whose cells are the twenty-four cells of `row` from
    /// `start` on.
    pub fn from_row(row: &[T], start: usize) -> (cols: Self)
        requires
            start + 24 <= row.len(),
        ensures
            cols.flat() == row@.subrange(start as int, start + 24),
    {
        let cols = Add4Operation {
            value: Word(crate::trace::read_array(row, start)),
            is_carry_0: Word(crate::trace::read_array(row, start + 4)),
            is_carry_1: Word(crate::trace::read_array(row, start + 8)),
            is_carry_2: Word(crate::trace::read_array(row, start + 12)),
            is_carry_3: Word(crate::trace::read_array(row, start + 16)),
            carry: Word(crate::trace::read_array(row, start + 20)),
        };
        assert(cols.flat() =~= row@.subrange(start as int, start + 24));
        cols
    }

    /// Appends the cells of the columns to `row`.
    pub fn append_to(&self, row: &mut Vec<T>)
        ensures
            final(row)@ == old(row)@ + self.flat(),
            self.flat().len() == 24,
    {
        crate::trace::append_array(&self.value.0, row);
        crate::trace::append_array(&self.is_carry_0.0, row);
        crate::trace::append_array(&self.is_carry_1.0, row);
        crate::trace::append_array(&self.is_carry_2.0, row);
        crate::trace::append_array(&self.is_carry_3.0, row);
        crate::trace::append_array(&self.carry.0, row);
        assert(row@ =~= old(row)@ + self.flat());
    }
}

/// Adding four lane sums with carries gives the lanes of the sum of the
/// words and, out of the top lane, how often the sum wrapped.
proof fn lemma_carry_chain4(t0: int, t1: int, t2: int, t3: int)
    requires
        0 <= t0 <= 1020,
        0 <= t1 <= 1020,
        0 <= t2 <= 1020,
        0 <= t3 <= 1020,
    ensures
        ({
            let c0 = t0 / 256;
            let c1 = (t1 + c0) / 256;
            let c2 = (t2 + c1) / 256;
            let c3 = (t3 + c2) / 256;
            &&& from_lanes(t0 % 256, (t1 + c0) % 256, (t2 + c1) % 256, (t3 + c2) % 256)
                + 0x1_0000_0000 * c3 == from_lanes(t0, t1, t2, t3)
            &&& 0 <= c0 <= 3
            &&& 0 <= c1 <= 3
            &&& 0 <= c2 <= 3
            &&& 0 <= c3 <= 3
        }),
{
}

/// The lanes of a sum of four words are the lane sums with carries, reduced
/// to bytes, and no carry is above three.
pub proof fn lemma_sum4_lanes(a: u32, b: u32, c: u32, d: u32)
    ensures
        forall|i: int|
            0 <= i < 4 ==> lane_sum4(a, b, c, d, i) + lane_carry4(a, b, c, d, i - 1)
                == #[trigger] lane(wrapping_sum4(a, b, c, d), i) + 256 * lane_carry4(
                a,
                b,
                c,
                d,
                i,
            ),
        forall|i: int| 0 <= i < 4 ==> 0 <= #[trigger] lane_carry4(a, b, c, d, i) <= 3,
        lane_carry4(a, b, c, d, -1) == 0,
{
    let t0 = lane_sum4(a, b, c, d, 0);
    let t1 = lane_sum4(a, b, c, d, 1);
    let t2 = lane_sum4(a, b, c, d, 2);
    let t3 = lane_sum4(a, b, c, d, 3);
    assert(from_lanes(t0, t1, t2, t3) == a + b + c + d && 0 <= t0 <= 1020 && 0 <= t1 <= 1020 && 0
        <= t2 <= 1020 && 0 <= t3 <= 1020) by {
        lemma_lanes(a);
        lemma_lanes(b);
        lemma_lanes(c);
        lemma_lanes(d);
    }
    lemma_carry_chain4(t0, t1, t2, t3);
    let c0 = t0 / 256;
    let c1 = (t1 + c0) / 256;
    let c2 = (t2 + c1) / 256;
    let c3 = (t3 + c2) / 256;
    let w0 = t0 % 256;
    let w1 = (t1 + c0) % 256;
    let w2 = (t2 + c1) % 256;
    let w3 = (t3 + c2) % 256;
    let w = from_lanes(w0, w1, w2, w3);
    let v = wrapping_sum4(a, b, c, d);
    assert(0 <= w < 0x1_0000_0000);
    assert(v == w) by {
        vstd::arithmetic::div_mod::lemma_fundamental_div_mod_converse(
            a + b + c + d,
            0x1_0000_0000,
            c3,
            w,
        );
    }
    assert(lane(v, 0) == w0 && lane(v, 1) == w1 && lane(v, 2) == w2 && lane(v, 3) == w3) by {
        lemma_from_lanes_unique(w0, w1, w2, w3, v);
    }
    assert(lane_carry4(a, b, c, d, -1) == 0 && lane_carry4(a, b, c, d, 0) == c0 && lane_carry4(
        a,
        b,
        c,
        d,
        1,
    ) == c1 && lane_carry4(a, b, c, d, 2) == c2 && lane_carry4(a, b, c, d, 3) == c3) by {
        reveal(lane_carry4);
    }
    assert forall|i: int| 0 <= i < 4 implies lane_sum4(a, b, c, d, i) + lane_carry4(
        a,
        b,
        c,
        d,
        i - 1,
    ) == #[trigger] lane(v, i) + 256 * lane_carry4(a, b, c, d, i) by {
        if i == 0 {
            assert(t0 == w0 + 256 * c0);
        } else if i == 1 {
            assert(t1 + c0 == w1 + 256 * c1);
        } else if i == 2 {
            assert(t2 + c1 == w2 + 256 * c2);
        } else {
            assert(t3 + c2 == w3 + 256 * c3);
        }
    }
}

/// Adding four words one after the other, wrapping each time, wraps their
/// sum.
pub proof fn lemma_wrapping_sum4(a: u32, b: u32, c: u32, d: u32)
    ensures
        wrapping_sum(wrapping_sum(wrapping_sum(a, b), c), d) == wrapping_sum4(a, b, c, d),
{
    let ab = wrapping_sum(a, b);
    assert(ab == a + b || ab == a + b - 0x1_0000_0000);
    let abc = wrapping_sum(ab, c);
    assert(abc == ab + c || abc == ab + c - 0x1_0000_0000);
    let abcd = wrapping_sum(abc, d);
    assert(abcd == abc + d || abcd == abc + d - 0x1_0000_0000);
}

impl Add4Operation<u32> {
    /// The columns of the addition of `a`, `b`, `c` and `d`.
    #[verifier::opaque]
    pub open spec fn witness(a: u32, b: u32, c: u32, d: u32) -> Add4Operation<u32> {
        Add4Operation {
            value: word_of(wrapping_sum4(a, b, c, d)),
            is_carry_0: Word(
                [
                    indicator(lane_carry4(a, b, c, d, 0), 0),
                    indicator(lane_carry4(a, b, c, d, 1), 0),
                    indicator(lane_carry4(a, b, c, d, 2), 0),
                    indicator(lane_carry4(a, b, c, d, 3), 0),
                ],
            ),
            is_carry_1: Word(
                [
                    indicator(lane_carry4(a, b, c, d, 0), 1),
                    indicator(lane_carry4(a, b, c, d, 1), 1),
                    indicator(lane_carry4(a, b, c, d, 2), 1),
                    indicator(lane_carry4(a, b, c, d, 3), 1),
                ],
            ),
            is_carry_2: Word(
                [
                    indicator(lane_carry4(a, b, c, d, 0), 2),
                    indicator(lane_carry4(a, b, c, d, 1), 2),
                    indicator(lane_carry4(a, b, c, d, 2), 2),
                    indicator(lane_carry4(a, b, c, d, 3), 2),
                ],
            ),
            is_carry_3: Word(
                [
                    indicator(lane_carry4(a, b, c, d, 0), 3),
                    indicator(lane_carry4(a, b, c, d, 1), 3),
                    indicator(lane_carry4(a, b, c, d, 2), 3),
                    indicator(lane_carry4(a, b, c, d, 3), 3),
                ],
            ),
            carry: Word(
                [
                    lane_carry4(a, b, c, d, 0) as u32,
                    lane_carry4(a, b, c, d, 1) as u32,
                    lane_carry4(a, b, c, d, 2) as u32,
                    lane_carry4(a, b, c, d, 3) as u32,
                ],
            ),
        }
    }

    /// Columns of zeros.
    pub open spec fn zero() -> Self {
        Add4Operation {
            value: word_of(0),
            is_carry_0: Word([0u32, 0u32, 0u32, 0u32]),
            is_carry_1: Word([0u32, 0u32, 0u32, 0u32]),
            is_carry_2: Word([0u32, 0u32, 0u32, 0u32]),
            is_carry_3: Word([0u32, 0u32, 0u32, 0u32]),
            carry: Word([0u32, 0u32, 0u32, 0u32]),
        }
    }

    /// Columns of zeros.
    pub fn zeroed() -> (cols: Self)
        ensures
            cols == Self::zero(),
    {
        let cols = Add4Operation {
            value: Word::default(),
            is_carry_0: Word([0, 0, 0, 0]),
            is_carry_1: Word([0, 0, 0, 0]),
            is_carry_2: Word([0, 0, 0, 0]),
            is_carry_3: Word([0, 0, 0, 0]),
            carry: Word([0, 0, 0, 0]),
        };
        assert(cols.is_carry_0.0 =~= Self::zero().is_carry_0.0);
        assert(cols.is_carry_1.0 =~= Self::zero().is_carry_1.0);
        assert(cols.is_carry_2.0 =~= Self::zero().is_carry_2.0);
        assert(cols.is_carry_3.0 =~= Self::zero().is_carry_3.0);
        assert(cols.carry.0 =~= Self::zero().carry.0);
        cols
    }

    /// Fills the columns for `a + b + c + d`, leaves the range checks of
    /// operands and sum in `record`, and returns the sum.
    pub fn populate(
        &mut self,
        record: &mut ExecutionRecord,
        a: u32,
        b: u32,
        c: u32,
        d: u32,
    ) -> (sum: u32)
        ensures
            sum == wrapping_sum4(a, b, c, d),
            *final(self) == Self::witness(a, b, c, d),
            final(record).byte_lookup_events@ == old(record).byte_lookup_events@ + add4_events(
                a,
                b,
                c,
                d,
            ),
            final(record).same_but_lookups(*old(record)),
    {
        let expected: u32 = Self::sum(a, b, c, d);
        let carry = Self::carries(a, b, c, d);
        let cols = Add4Operation {
            value: Word::from_u32(expected),
            is_carry_0: Self::flags(&carry, 0),
            is_carry_1: Self::flags(&carry, 1),
            is_carry_2: Self::flags(&carry, 2),
            is_carry_3: Self::flags(&carry, 3),
            carry: Word(carry),
        };
        *self = cols;
        Self::range_checks(record, a, b, c, d);
        proof {
            reveal(Add4Operation::witness);
            assert(cols.carry.0 =~= Self::witness(a, b, c, d).carry.0);
            assert(cols.is_carry_0.0 =~= Self::witness(a, b, c, d).is_carry_0.0);
            assert(cols.is_carry_1.0 =~= Self::witness(a, b, c, d).is_carry_1.0);
            assert(cols.is_carry_2.0 =~= Self::witness(a, b, c, d).is_carry_2.0);
            assert(cols.is_carry_3.0 =~= Self::witness(a, b, c, d).is_carry_3.0);
        }
        expected
    }

    /// The sum of four words modulo two to the thirty-second.
    fn sum(a: u32, b: u32, c: u32, d: u32) -> (r: u32)
        ensures
            r == wrapping_sum4(a, b, c, d),
    {
        proof {
            lemma_wrapping_sum4(a, b, c, d);
        }
        a.wrapping_add(b).wrapping_add(c).wrapping_add(d)
    }

    /// Leaves the range checks of the four operands and of their sum in
    /// `record`.
    fn range_checks(record: &mut ExecutionRecord, a: u32, b: u32, c: u32, d: u32)
        ensures
            final(record).byte_lookup_events@ == old(record).byte_lookup_events@ + add4_events(
                a,
                b,
                c,
                d,
            ),
            final(record).same_but_lookups(*old(record)),
    {
        let expected: u32 = Self::sum(a, b, c, d);
        record.add_word_range_checks(a);
        record.add_word_range_checks(b);
        record.add_word_range_checks(c);
        record.add_word_range_checks(d);
        record.add_word_range_checks(expected);
        proof {
            reveal(add4_events);
            assert(record.byte_lookup_events@ =~= old(record).byte_lookup_events@ + add4_events(
                a,
                b,
                c,
                d,
            ));
        }
    }

    /// The carries out of the four lanes.
    fn carries(a: u32, b: u32, c: u32, d: u32) -> (carry: [u32; 4])
        ensures
            forall|j: int| 0 <= j < 4 ==> carry[j] as int == lane_carry4(a, b, c, d, j),
    {
        proof {
            reveal(lane_carry4);
        }
        let c0: u32 = Self::lane_sum(a, b, c, d, 0) / 256;
        let c1: u32 = (Self::lane_sum(a, b, c, d, 1) + c0) / 256;
        let c2: u32 = (Self::lane_sum(a, b, c, d, 2) + c1) / 256;
        let c3: u32 = (Self::lane_sum(a, b, c, d, 3) + c2) / 256;
        [c0, c1, c2, c3]
    }

    /// The sum of lane `i` of four words.
    fn lane_sum(a: u32, b: u32, c: u32, d: u32, i: usize) -> (t: u32)
        requires
            i < 4,
        ensures
            t as int == lane_sum4(a, b, c, d, i as int),
            t <= 1020,
    {
        crate::word::byte(a, i) as u32 + crate::word::byte(b, i) as u32 + crate::word::byte(
            c,
            i,
        ) as u32 + crate::word::byte(d, i) as u32
    }

    /// For each lane, whether its carry is `k`.
    fn flags(carry: &[u32; 4], k: u32) -> (w: Word<u32>)
        ensures
            w.0@ == seq![
                indicator(carry[0] as int, k as int),
                indicator(carry[1] as int, k as int),
                indicator(carry[2] as int, k as int),
                indicator(carry[3] as int, k as int),
            ],
    {
        let w = Word(
            [
                Self::flag(carry[0], k),
                Self::flag(carry[1], k),
                Self::flag(carry[2], k),
                Self::flag(carry[3], k),
            ],
        );
        assert(w.0@ =~= seq![
            indicator(carry[0] as int, k as int),
            indicator(carry[1] as int, k as int),
            indicator(carry[2] as int, k as int),
            indicator(carry[3] as int, k as int),
        ]);
        w
    }

    /// States the identities of one addition of four words on the rows where
    /// `is_real` is one.
    pub fn eval<B: ConstraintBuilder>(
        builder: &mut B,
        a: Word<B::Var>,
        b: Word<B::Var>,
        c: Word<B::Var>,
        d: Word<B::Var>,
        cols: Add4Operation<B::Var>,
        is_real: B::Var,
    )
        ensures
            final(builder).state() == old(builder).state().and(
                add4_relation(
                    word_values::<B>(a),
                    word_values::<B>(b),
                    word_values::<B>(c),
                    word_values::<B>(d),
                    word_values::<B>(cols.value),
                    word_values::<B>(cols.is_carry_0),
                    word_values::<B>(cols.is_carry_1),
                    word_values::<B>(cols.is_carry_2),
                    word_values::<B>(cols.is_carry_3),
                    word_values::<B>(cols.carry),
                    B::var_value(is_real),
                    B::modulus(),
                ),
            ),
    {
        proof {
            reveal(add4_relation);
        }
        range_check_word(builder, a, is_real);
        range_check_word(builder, b, is_real);
        range_check_word(builder, c, is_real);
        range_check_word(builder, d, is_real);
        range_check_word(builder, cols.value, is_real);
        assert_bool(builder, is_real);
        let zero = B::constant(0);
        Self::eval_lane(builder, a, b, c, d, &zero, cols, 0, is_real);
        Self::eval_lane(builder, a, b, c, d, &B::lift(cols.carry.0[0]), cols, 1, is_real);
        Self::eval_lane(builder, a, b, c, d, &B::lift(cols.carry.0[1]), cols, 2, is_real);
        Self::eval_lane(builder, a, b, c, d, &B::lift(cols.carry.0[2]), cols, 3, is_real);
    }

    /// States the identities of lane `i`.
    fn eval_lane<B: ConstraintBuilder>(
        builder: &mut B,
        a: Word<B::Var>,
        b: Word<B::Var>,
        c: Word<B::Var>,
        d: Word<B::Var>,
        below: &B::Expr,
        cols: Add4Operation<B::Var>,
        i: usize,
        is_real: B::Var,
    )
        requires
            i < 4,
        ensures
            final(builder).state() == old(builder).state().and(
                add4_lane_relation(
                    word_values::<B>(a)[i as int],
                    word_values::<B>(b)[i as int],
                    word_values::<B>(c)[i as int],
                    word_values::<B>(d)[i as int],
                    B::expr_value(*below),
                    word_values::<B>(cols.value)[i as int],
                    lane_flags(
                        word_values::<B>(cols.is_carry_0),
                        word_values::<B>(cols.is_carry_1),
                        word_values::<B>(cols.is_carry_2),
                        word_values::<B>(cols.is_carry_3),
                        i as int,
                    ),
                    word_values::<B>(cols.carry)[i as int],
                    B::var_value(is_real),
                    B::modulus(),
                ),
            ),
    {
        let one = B::constant(1);
        let f0 = B::lift(cols.is_carry_0.0[i]);
        let f1 = B::lift(cols.is_carry_1.0[i]);
        let f2 = B::lift(cols.is_carry_2.0[i]);
        let f3 = B::lift(cols.is_carry_3.0[i]);
        // Each flag is zero or one, and exactly one of them is one.
        assert_zero_when(builder, is_real, &B::times(&f0, &B::minus(&f0, &one)));
        assert_zero_when(builder, is_real, &B::times(&f1, &B::minus(&f1, &one)));
        assert_zero_when(builder, is_real, &B::times(&f2, &B::minus(&f2, &one)));
        assert_zero_when(builder, is_real, &B::times(&f3, &B::minus(&f3, &one)));
        let set = B::plus(&B::plus(&B::plus(&f0, &f1), &f2), &f3);
        assert_zero_when(builder, is_real, &B::minus(&set, &one));
        // The carry is the number of the flag that is one.
        let carry = B::lift(cols.carry.0[i]);
        let number = B::plus(
            &B::plus(&f1, &B::times(&B::constant(2), &f2)),
            &B::times(&B::constant(3), &f3),
        );
        assert_zero_when(builder, is_real, &B::minus(&carry, &number));
        // The lane sum exceeds the lane of the result by the carry times the
        // base.
        let sum = B::plus(
            &B::plus(
                &B::plus(&B::plus(&B::lift(a.0[i]), &B::lift(b.0[i])), &B::lift(c.0[i])),
                &B::lift(d.0[i]),
            ),
            below,
        );
        let overflow = B::minus(&sum, &B::lift(cols.value.0[i]));
        let scaled = B::times(&B::constant(256), &carry);
        assert_zero_when(builder, is_real, &B::minus(&scaled, &overflow));
    }

    /// One if `carry` is `k`, and zero if not.
    fn flag(carry: u32, k: u32) -> (f: u32)
        ensures
            f == indicator(carry as int, k as int),
    {
        if carry == k {
            1
        } else {
            0
        }
    }
}

/// The identities of a lane hold where the flags say which of zero to three
/// the carry is and the lane sum is the lane of the result with the carry
/// times the base; and they hold on a row that is not real.
proof fn lemma_add4_lane(
    a: int,
    b: int,
    c: int,
    d: int,
    below: int,
    value: int,
    carry: int,
    is_real: int,
    p: int,
)
    requires
        p > 0,
        is_real == 0 || (is_real == 1 && 0 <= carry <= 3 && a + b + c + d + below == value + 256
            * carry),
    ensures
        add4_lane_relation(
            a,
            b,
            c,
            d,
            below,
            value,
            seq![
                indicator(carry, 0) as int,
                indicator(carry, 1) as int,
                indicator(carry, 2) as int,
                indicator(carry, 3) as int,
            ],
            carry,
            is_real,
            p,
        ),
{
    lemma_small_mod(0, p as nat);
    if is_real == 0 {
        assert(forall|x: int| #[trigger] (0 * x) == 0) by (nonlinear_arith);
    } else {
        let f0 = indicator(carry, 0) as int;
        let f1 = indicator(carry, 1) as int;
        let f2 = indicator(carry, 2) as int;
        let f3 = indicator(carry, 3) as int;
        assert(f0 * (f0 - 1) == 0 && f1 * (f1 - 1) == 0 && f2 * (f2 - 1) == 0 && f3 * (f3 - 1)
            == 0) by (nonlinear_arith)
            requires
                f0 == 0 || f0 == 1,
                f1 == 0 || f1 == 1,
                f2 == 0 || f2 == 1,
                f3 == 0 || f3 == 1,
        ;
    }
}

/// The identities of lane 0 hold for the columns that `populate` fills.
proof fn lemma_add4_witness_lane_0(a: u32, b: u32, c: u32, d: u32, is_real: int, p: int)
    requires
        p > 0,
        is_real == 0 || is_real == 1,
    ensures
        add4_lane_relation(
            lane(a, 0),
            lane(b, 0),
            lane(c, 0),
            lane(d, 0),
            0,
            lane(wrapping_sum4(a, b, c, d), 0),
            seq![
                indicator(lane_carry4(a, b, c, d, 0), 0) as int,
                indicator(lane_carry4(a, b, c, d, 0), 1) as int,
                indicator(lane_carry4(a, b, c, d, 0), 2) as int,
                indicator(lane_carry4(a, b, c, d, 0), 3) as int,
            ],
            lane_carry4(a, b, c, d, 0),
            is_real,
            p,
        ),
{
    let v = wrapping_sum4(a, b, c, d);
    let carry = lane_carry4(a, b, c, d, 0);
    assert(0 <= carry <= 3 && lane_sum4(a, b, c, d, 0) + lane_carry4(a, b, c, d, 0 - 1)
        == lane(v, 0) + 256 * carry && lane_carry4(a, b, c, d, -1) == 0) by {
        lemma_sum4_lanes(a, b, c, d);
        assert(lane(v, 0) == lane(v, 0));
    }
    lemma_add4_lane(
        lane(a, 0),
        lane(b, 0),
        lane(c, 0),
        lane(d, 0),
        0,
        lane(v, 0),
        carry,
        is_real,
        p,
    );
}

/// The identities of lane 1 hold for the columns that `populate` fills.
proof fn lemma_add4_witness_lane_1(a: u32, b: u32, c: u32, d: u32, is_real: int, p: int)
    requires
        p > 0,
        is_real == 0 || is_real == 1,
    ensures
        add4_lane_relation(
            lane(a, 1),
            lane(b, 1),
            lane(c, 1),
            lane(d, 1),
            lane_carry4(a, b, c, d, 0),
            lane(wrapping_sum4(a, b, c, d), 1),
            seq![
                indicator(lane_carry4(a, b, c, d, 1), 0) as int,
                indicator(lane_carry4(a, b, c, d, 1), 1) as int,
                indicator(lane_carry4(a, b, c, d, 1), 2) as int,
                indicator(lane_carry4(a, b, c, d, 1), 3) as int,
            ],
            lane_carry4(a, b, c, d, 1),
            is_real,
            p,
        ),
{
    let v = wrapping_sum4(a, b, c, d);
    let carry = lane_carry4(a, b, c, d, 1);
    assert(0 <= carry <= 3 && lane_sum4(a, b, c, d, 1) + lane_carry4(a, b, c, d, 1 - 1)
        == lane(v, 1) + 256 * carry && lane_carry4(a, b, c, d, -1) == 0) by {
        lemma_sum4_lanes(a, b, c, d);
        assert(lane(v, 1) == lane(v, 1));
    }
    lemma_add4_lane(
        lane(a, 1),
        lane(b, 1),
        lane(c, 1),
        lane(d, 1),
        lane_carry4(a, b, c, d, 0),
        lane(v, 1),
        carry,
        is_real,
        p,
    );
}

/// The identities of lane 2 hold for the columns that `populate` fills.
proof fn lemma_add4_witness_lane_2(a: u32, b: u32, c: u32, d: u32, is_real: int, p: int)
    requires
        p > 0,
        is_real == 0 || is_real == 1,
    ensures
        add4_lane_relation(
            lane(a, 2),
            lane(b, 2),
            lane(c, 2),
            lane(d, 2),
            lane_carry4(a, b, c, d, 1),
            lane(wrapping_sum4(a, b, c, d), 2),
            seq![
                indicator(lane_carry4(a, b, c, d, 2), 0) as int,
                indicator(lane_carry4(a, b, c, d, 2), 1) as int,
                indicator(lane_carry4(a, b, c, d, 2), 2) as int,
                indicator(lane_carry4(a, b, c, d, 2), 3) as int,
            ],
            lane_carry4(a, b, c, d, 2),
            is_real,
            p,
        ),
{
    let v = wrapping_sum4(a, b, c, d);
    let carry = lane_carry4(a, b, c, d, 2);
    assert(0 <= carry <= 3 && lane_sum4(a, b, c, d, 2) + lane_carry4(a, b, c, d, 2 - 1)
        == lane(v, 2) + 256 * carry && lane_carry4(a, b, c, d, -1) == 0) by {
        lemma_sum4_lanes(a, b, c, d);
        assert(lane(v, 2) == lane(v, 2));
    }
    lemma_add4_lane(
        lane(a, 2),
        lane(b, 2),
        lane(c, 2),
        lane(d, 2),
        lane_carry4(a, b, c, d, 1),
        lane(v, 2),
        carry,
        is_real,
        p,
    );
}

/// The identities of lane 3 hold for the columns that `populate` fills.
proof fn lemma_add4_witness_lane_3(a: u32, b: u32, c: u32, d: u32, is_real: int, p: int)
    requires
        p > 0,
        is_real == 0 || is_real == 1,
    ensures
        add4_lane_relation(
            lane(a, 3),
            lane(b, 3),
            lane(c, 3),
            lane(d, 3),
            lane_carry4(a, b, c, d, 2),
            lane(wrapping_sum4(a, b, c, d), 3),
            seq![
                indicator(lane_carry4(a, b, c, d, 3), 0) as int,
                indicator(lane_carry4(a, b, c, d, 3), 1) as int,
                indicator(lane_carry4(a, b, c, d, 3), 2) as int,
                indicator(lane_carry4(a, b, c, d, 3), 3) as int,
            ],
            lane_carry4(a, b, c, d, 3),
            is_real,
            p,
        ),
{
    let v = wrapping_sum4(a, b, c, d);
    let carry = lane_carry4(a, b, c, d, 3);
    assert(0 <= carry <= 3 && lane_sum4(a, b, c, d, 3) + lane_carry4(a, b, c, d, 3 - 1)
        == lane(v, 3) + 256 * carry && lane_carry4(a, b, c, d, -1) == 0) by {
        lemma_sum4_lanes(a, b, c, d);
        assert(lane(v, 3) == lane(v, 3));
    }
    lemma_add4_lane(
        lane(a, 3),
        lane(b, 3),
        lane(c, 3),
        lane(d, 3),
        lane_carry4(a, b, c, d, 2),
        lane(v, 3),
        carry,
        is_real,
        p,
    );
}

/// The carries that the columns that `populate` fills hold.
proof fn lemma_add4_witness_carries(a: u32, b: u32, c: u32, d: u32)
    ensures
        cells(Add4Operation::witness(a, b, c, d).carry) == seq![
            lane_carry4(a, b, c, d, 0),
            lane_carry4(a, b, c, d, 1),
            lane_carry4(a, b, c, d, 2),
            lane_carry4(a, b, c, d, 3),
        ],
{
    let w = Add4Operation::witness(a, b, c, d);
    assert(0 <= lane_carry4(a, b, c, d, 0) <= 3 && 0 <= lane_carry4(a, b, c, d, 1) <= 3 && 0
        <= lane_carry4(a, b, c, d, 2) <= 3 && 0 <= lane_carry4(a, b, c, d, 3) <= 3) by {
        lemma_sum4_lanes(a, b, c, d);
    }
    assert(w.carry == Word(
        [
            lane_carry4(a, b, c, d, 0) as u32,
            lane_carry4(a, b, c, d, 1) as u32,
            lane_carry4(a, b, c, d, 2) as u32,
            lane_carry4(a, b, c, d, 3) as u32,
        ],
    )) by {
        reveal(Add4Operation::witness);
    }
    assert(cells(w.carry) =~= seq![
        lane_carry4(a, b, c, d, 0),
        lane_carry4(a, b, c, d, 1),
        lane_carry4(a, b, c, d, 2),
        lane_carry4(a, b, c, d, 3),
    ]);
}

/// The flags that the columns that `populate` fills hold in lane `i`.
proof fn lemma_add4_witness_flags(a: u32, b: u32, c: u32, d: u32, i: int)
    requires
        0 <= i < 4,
    ensures
        lane_flags(
            cells(Add4Operation::witness(a, b, c, d).is_carry_0),
            cells(Add4Operation::witness(a, b, c, d).is_carry_1),
            cells(Add4Operation::witness(a, b, c, d).is_carry_2),
            cells(Add4Operation::witness(a, b, c, d).is_carry_3),
            i,
        ) == seq![
            indicator(lane_carry4(a, b, c, d, i), 0) as int,
            indicator(lane_carry4(a, b, c, d, i), 1) as int,
            indicator(lane_carry4(a, b, c, d, i), 2) as int,
            indicator(lane_carry4(a, b, c, d, i), 3) as int,
        ],
{
    reveal(Add4Operation::witness);
    let w = Add4Operation::witness(a, b, c, d);
    assert(lane_flags(
        cells(w.is_carry_0),
        cells(w.is_carry_1),
        cells(w.is_carry_2),
        cells(w.is_carry_3),
        i,
    ) =~= seq![
        indicator(lane_carry4(a, b, c, d, i), 0) as int,
        indicator(lane_carry4(a, b, c, d, i), 1) as int,
        indicator(lane_carry4(a, b, c, d, i), 2) as int,
        indicator(lane_carry4(a, b, c, d, i), 3) as int,
    ]);
}

/// What the columns that `populate` fills hold.
proof fn lemma_add4_witness_fields(a: u32, b: u32, c: u32, d: u32)
    ensures
        cells(Add4Operation::witness(a, b, c, d).value) == lanes(wrapping_sum4(a, b, c, d)),
        cells(Add4Operation::witness(a, b, c, d).carry) == seq![
            lane_carry4(a, b, c, d, 0),
            lane_carry4(a, b, c, d, 1),
            lane_carry4(a, b, c, d, 2),
            lane_carry4(a, b, c, d, 3),
        ],
        forall|i: int|
            0 <= i < 4 ==> #[trigger] lane_flags(
                cells(Add4Operation::witness(a, b, c, d).is_carry_0),
                cells(Add4Operation::witness(a, b, c, d).is_carry_1),
                cells(Add4Operation::witness(a, b, c, d).is_carry_2),
                cells(Add4Operation::witness(a, b, c, d).is_carry_3),
                i,
            ) == seq![
                indicator(lane_carry4(a, b, c, d, i), 0) as int,
                indicator(lane_carry4(a, b, c, d, i), 1) as int,
                indicator(lane_carry4(a, b, c, d, i), 2) as int,
                indicator(lane_carry4(a, b, c, d, i), 3) as int,
            ],
{
    assert(cells(Add4Operation::witness(a, b, c, d).value) == lanes(wrapping_sum4(a, b, c, d))) by {
        reveal(Add4Operation::witness);
        crate::word::lemma_word_of(wrapping_sum4(a, b, c, d));
    }
    lemma_add4_witness_carries(a, b, c, d);
    lemma_add4_witness_flags(a, b, c, d, 0);
    lemma_add4_witness_flags(a, b, c, d, 1);
    lemma_add4_witness_flags(a, b, c, d, 2);
    lemma_add4_witness_flags(a, b, c, d, 3);
}

/// On a row that is not real the identities of an addition of four words ask
/// only that the flag is zero.
pub proof fn lemma_add4_unconstrained(
    a: Seq<int>,
    b: Seq<int>,
    c: Seq<int>,
    d: Seq<int>,
    value: Seq<int>,
    f0: Seq<int>,
    f1: Seq<int>,
    f2: Seq<int>,
    f3: Seq<int>,
    carry: Seq<int>,
    p: int,
)
    requires
        p > 0,
    ensures
        add4_relation(a, b, c, d, value, f0, f1, f2, f3, carry, 0, p),
{
    reveal(add4_relation);
    lemma_small_mod(0, p as nat);
    assert(forall|x: int| #[trigger] (0 * x) == 0) by (nonlinear_arith);
}

/// The range checks of an addition of four words hold for the columns that
/// `populate` fills.
proof fn lemma_add4_witness_ranges(a: u32, b: u32, c: u32, d: u32, is_real: int, p: int)
    requires
        p > 256,
    ensures
        word_in_range(lanes(a), is_real, p),
        word_in_range(lanes(b), is_real, p),
        word_in_range(lanes(c), is_real, p),
        word_in_range(lanes(d), is_real, p),
        word_in_range(cells(Add4Operation::witness(a, b, c, d).value), is_real, p),
        Add4Operation::witness(a, b, c, d).value == word_of(wrapping_sum4(a, b, c, d)),
{
    let v = wrapping_sum4(a, b, c, d);
    assert(Add4Operation::witness(a, b, c, d).value == word_of(v)) by {
        reveal(Add4Operation::witness);
    }
    lemma_lanes(a);
    lemma_lanes(b);
    lemma_lanes(c);
    lemma_lanes(d);
    lemma_lanes(v);
    crate::word::lemma_word_of(v);
    lemma_word_in_range(lanes(a), is_real, p);
    lemma_word_in_range(lanes(b), is_real, p);
    lemma_word_in_range(lanes(c), is_real, p);
    lemma_word_in_range(lanes(d), is_real, p);
    lemma_word_in_range(lanes(v), is_real, p);
}

/// The columns that `populate` fills satisfy the identities that `eval`
/// states, whether the row is real or not, in every field that holds a byte.
pub proof fn lemma_add4_witness_satisfies(a: u32, b: u32, c: u32, d: u32, is_real: int, p: int)
    requires
        p > 256,
        is_real == 0 || is_real == 1,
    ensures
        add4_relation(
            lanes(a),
            lanes(b),
            lanes(c),
            lanes(d),
            cells(Add4Operation::witness(a, b, c, d).value),
            cells(Add4Operation::witness(a, b, c, d).is_carry_0),
            cells(Add4Operation::witness(a, b, c, d).is_carry_1),
            cells(Add4Operation::witness(a, b, c, d).is_carry_2),
            cells(Add4Operation::witness(a, b, c, d).is_carry_3),
            cells(Add4Operation::witness(a, b, c, d).carry),
            is_real,
            p,
        ),
        Add4Operation::witness(a, b, c, d).value == word_of(wrapping_sum4(a, b, c, d)),
{
    let w = Add4Operation::witness(a, b, c, d);
    lemma_add4_witness_ranges(a, b, c, d, is_real, p);
    assert(vanishes(is_real * (is_real - 1), p)) by {
        lemma_small_mod(0, p as nat);
        assert(is_real * (is_real - 1) == 0) by (nonlinear_arith)
            requires
                is_real == 0 || is_real == 1,
        ;
    }
    lemma_add4_witness_fields(a, b, c, d);
    lemma_add4_witness_lane_0(a, b, c, d, is_real, p);
    lemma_add4_witness_lane_1(a, b, c, d, is_real, p);
    lemma_add4_witness_lane_2(a, b, c, d, is_real, p);
    lemma_add4_witness_lane_3(a, b, c, d, is_real, p);
    reveal(add4_relation);
}

/// The identities of a lane of an addition of four words are sound: the
/// carry is zero to three, and the lane sum with the carry from below is
/// the lane of the result with the carry times the base.
proof fn lemma_add4_lane_sound(
    a: int,
    b: int,
    c: int,
    d: int,
    below: int,
    value: int,
    flags: Seq<int>,
    carry: int,
    p: int,
)
    requires
        is_field(p),
        p > 2048,
        flags.len() == 4,
        canonical(flags, p),
        0 <= carry < p,
        0 <= a < 256 && 0 <= b < 256 && 0 <= c < 256 && 0 <= d < 256 && 0 <= value < 256,
        0 <= below <= 3,
        add4_lane_relation(a, b, c, d, below, value, flags, carry, 1, p),
    ensures
        0 <= carry <= 3,
        a + b + c + d + below == value + 256 * carry,
{
    reveal(canonical);
    let f0 = flags[0];
    let f1 = flags[1];
    let f2 = flags[2];
    let f3 = flags[3];
    assert(0 <= f0 < p && 0 <= f1 < p && 0 <= f2 < p && 0 <= f3 < p);
    assert(1 * (f0 * (f0 - 1)) == f0 * (f0 - 1));
    assert(1 * (f1 * (f1 - 1)) == f1 * (f1 - 1));
    assert(1 * (f2 * (f2 - 1)) == f2 * (f2 - 1));
    assert(1 * (f3 * (f3 - 1)) == f3 * (f3 - 1));
    lemma_root(f0, 1, p);
    lemma_root(f1, 1, p);
    lemma_root(f2, 1, p);
    lemma_root(f3, 1, p);
    lemma_small_vanishes(1 * (f0 + f1 + f2 + f3 - 1), p);
    lemma_small_vanishes(1 * (carry - (f1 + 2 * f2 + 3 * f3)), p);
    lemma_small_vanishes(1 * (256 * carry - (a + b + c + d + below - value)), p);
}

/// The identities of an addition of four words are sound: in a field of
/// more than two thousand and forty-eight elements, columns that satisfy
/// them on a real row hold bytes, and the lanes of the sum spell the sum of
/// the words that the lanes of the operands spell, modulo two to the
/// thirty-second.
pub proof fn lemma_add4_sound(
    a: Seq<int>,
    b: Seq<int>,
    c: Seq<int>,
    d: Seq<int>,
    value: Seq<int>,
    f0: Seq<int>,
    f1: Seq<int>,
    f2: Seq<int>,
    f3: Seq<int>,
    carry: Seq<int>,
    p: int,
)
    requires
        is_field(p),
        p > 2048,
        a.len() == 4 && b.len() == 4 && c.len() == 4 && d.len() == 4 && value.len() == 4,
        f0.len() == 4 && f1.len() == 4 && f2.len() == 4 && f3.len() == 4 && carry.len() == 4,
        canonical(a, p) && canonical(b, p) && canonical(c, p) && canonical(d, p) && canonical(
            value,
            p,
        ),
        canonical(f0, p) && canonical(f1, p) && canonical(f2, p) && canonical(f3, p) && canonical(
            carry,
            p,
        ),
        add4_relation(a, b, c, d, value, f0, f1, f2, f3, carry, 1, p),
    ensures
        all_bytes(a) && all_bytes(b) && all_bytes(c) && all_bytes(d) && all_bytes(value),
        word_from(value) == (word_from(a) + word_from(b) + word_from(c) + word_from(d))
            % 0x1_0000_0000,
{
    reveal(add4_relation);
    lemma_range_checked(a, p);
    lemma_range_checked(b, p);
    lemma_range_checked(c, p);
    lemma_range_checked(d, p);
    lemma_range_checked(value, p);
    reveal(canonical);
    reveal(all_bytes);
    assert(0 <= a[0] < 256 && 0 <= a[1] < 256 && 0 <= a[2] < 256 && 0 <= a[3] < 256);
    assert(0 <= b[0] < 256 && 0 <= b[1] < 256 && 0 <= b[2] < 256 && 0 <= b[3] < 256);
    assert(0 <= c[0] < 256 && 0 <= c[1] < 256 && 0 <= c[2] < 256 && 0 <= c[3] < 256);
    assert(0 <= d[0] < 256 && 0 <= d[1] < 256 && 0 <= d[2] < 256 && 0 <= d[3] < 256);
    assert(0 <= value[0] < 256 && 0 <= value[1] < 256 && 0 <= value[2] < 256 && 0 <= value[3]
        < 256);
    assert(0 <= carry[0] < p && 0 <= carry[1] < p && 0 <= carry[2] < p && 0 <= carry[3] < p);
    assert forall|i: int| 0 <= i < 4 implies canonical(#[trigger] lane_flags(f0, f1, f2, f3, i), p)
        && lane_flags(f0, f1, f2, f3, i).len() == 4 by {
        assert(0 <= f0[i] < p && 0 <= f1[i] < p && 0 <= f2[i] < p && 0 <= f3[i] < p);
    }
    lemma_add4_lane_sound(
        a[0],
        b[0],
        c[0],
        d[0],
        0,
        value[0],
        lane_flags(f0, f1, f2, f3, 0),
        carry[0],
        p,
    );
    lemma_add4_lane_sound(
        a[1],
        b[1],
        c[1],
        d[1],
        carry[0],
        value[1],
        lane_flags(f0, f1, f2, f3, 1),
        carry[1],
        p,
    );
    lemma_add4_lane_sound(
        a[2],
        b[2],
        c[2],
        d[2],
        carry[1],
        value[2],
        lane_flags(f0, f1, f2, f3, 2),
        carry[2],
        p,
    );
    lemma_add4_lane_sound(
        a[3],
        b[3],
        c[3],
        d[3],
        carry[2],
        value[3],
        lane_flags(f0, f1, f2, f3, 3),
        carry[3],
        p,
    );
    assert(word_from(value) + 0x1_0000_0000 * carry[3] == word_from(a) + word_from(b) + word_from(
        c,
    ) + word_from(d));
    vstd::arithmetic::div_mod::lemma_fundamental_div_mod_converse(
        word_from(a) + word_from(b) + word_from(c) + word_from(d),
        0x1_0000_0000,
        carry[3],
        word_from(value),
    );
}

} // verus!
