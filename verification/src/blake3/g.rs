//! The mixing round of the compression function.
//!
//! A round takes four state words `a`, `b`, `c`, `d` and two message words
//! `x`, `y`, and runs two half-rounds of four steps:
//!
//! ```text
//! a = a + b + x;  d = (d ^ a) >>> 16;  c = c + d;  b = (b ^ c) >>> 12;
//! a = a + b + y;  d = (d ^ a) >>> 8;   c = c + d;  b = (b ^ c) >>> 7;
//! ```

use vstd::prelude::*;
use crate::builder::{
    ConstraintBuilder, vanishes, word_values, assert_bool, words_agree, assert_words_agree,
    lemma_words_agree, is_field, canonical, all_bytes, lemma_small_vanishes,
    lemma_lanes_are_bytes,
};
use crate::operations::add::{word_from, lemma_add_sound};
use crate::operations::rotate_right::lemma_rotate_sound;
use crate::operations::xor::lemma_xor_sound;
use crate::word::{lemma_lanes, lemma_lanes_of_bytes};
use crate::bytes::ByteLookupEvent;
use crate::operations::add::{
    AddOperation, add_events, add_relation, carry_values, wrapping_sum,
    lemma_add_witness_satisfies,
};
use crate::operations::rotate_right::{
    FixedRotateRightOperation, rotate_events, rotate_relation, rotr, rotate_right,
    lemma_rotate_witness_satisfies, lemma_rotr_whole_bytes,
};
use crate::operations::xor::{XorOperation, xor_events, xor_relation, lemma_xor_witness_satisfies};
use crate::evaluator::{RowEvaluator, lemma_evaluator_reads_cells};
use crate::operations::add::lemma_evaluator_reads_carries;
use crate::operations::rotate_right::lemma_rotr_zero;
use crate::record::ExecutionRecord;
use crate::word::{Word, word_of, lanes, lemma_word_of};
use vstd::arithmetic::div_mod::lemma_small_mod;

verus! {

/// The words that one round computes on the way, in the order of its steps.
pub struct GSteps {
    pub a_plus_b: u32,
    pub a_1: u32,
    pub d_xor_a: u32,
    pub d_1: u32,
    pub c_1: u32,
    pub b_xor_c: u32,
    pub b_1: u32,
    pub a_plus_b_2: u32,
    pub a_2: u32,
    pub d_xor_a_2: u32,
    pub d_2: u32,
    pub c_2: u32,
    pub b_xor_c_2: u32,
    pub b_2: u32,
}

/// The steps of the round on `input`, which holds `a`, `b`, `c`, `d`, `x`, `y`.
pub open spec fn g_steps(input: [u32; 6]) -> GSteps {
    let a_plus_b = wrapping_sum(input[0], input[1]);
    let a_1 = wrapping_sum(a_plus_b, input[4]);
    let d_xor_a = input[3] ^ a_1;
    let d_1 = rotr(d_xor_a, 16);
    let c_1 = wrapping_sum(input[2], d_1);
    let b_xor_c = input[1] ^ c_1;
    let b_1 = rotr(b_xor_c, 12);
    let a_plus_b_2 = wrapping_sum(a_1, b_1);
    let a_2 = wrapping_sum(a_plus_b_2, input[5]);
    let d_xor_a_2 = d_1 ^ a_2;
    let d_2 = rotr(d_xor_a_2, 8);
    let c_2 = wrapping_sum(c_1, d_2);
    let b_xor_c_2 = b_1 ^ c_2;
    let b_2 = rotr(b_xor_c_2, 7);
    GSteps {
        a_plus_b,
        a_1,
        d_xor_a,
        d_1,
        c_1,
        b_xor_c,
        b_1,
        a_plus_b_2,
        a_2,
        d_xor_a_2,
        d_2,
        c_2,
        b_xor_c_2,
        b_2,
    }
}

/// The state words `a`, `b`, `c`, `d` after the round on `input`.
pub open spec fn g_func(input: [u32; 6]) -> Seq<u32> {
    let s = g_steps(input);
    seq![s.a_2, s.b_2, s.c_2, s.d_2]
}

/// The lookup events that one round leaves, in the order of its steps.
pub open spec fn g_events(input: [u32; 6]) -> Seq<ByteLookupEvent> {
    let s = g_steps(input);
    add_events(input[0], input[1]) + add_events(s.a_plus_b, input[4]) + xor_events(input[3], s.a_1)
        + add_events(input[2], s.d_1) + xor_events(input[1], s.c_1) + rotate_events(s.b_xor_c, 12)
        + add_events(s.a_1, s.b_1) + add_events(s.a_plus_b_2, input[5]) + xor_events(s.d_1, s.a_2)
        + add_events(s.c_1, s.d_2) + xor_events(s.b_1, s.c_2) + rotate_events(s.b_xor_c_2, 7)
}

/// The lanes of a word moved down by `nb` places, the lowest to the top: a
/// rotation by whole bytes, which costs no column.
pub open spec fn lanes_rotated(w: Seq<int>, nb: int) -> Seq<int> {
    seq![w[nb % 4], w[(1 + nb) % 4], w[(2 + nb) % 4], w[(3 + nb) % 4]]
}

/// Columns of one round: one set for each step that is not a rotation by
/// whole bytes, and the four state words after the round.
#[derive(Clone, Copy, Debug)]
pub struct GOperation<T> {
    pub a_plus_b: AddOperation<T>,
    pub a_plus_b_plus_x: AddOperation<T>,
    pub d_xor_a: XorOperation<T>,
    pub c_plus_d: AddOperation<T>,
    pub b_xor_c: XorOperation<T>,
    pub b_xor_c_rotate_right_12: FixedRotateRightOperation<T>,
    pub a_plus_b_2: AddOperation<T>,
    pub a_plus_b_2_add_y: AddOperation<T>,
    pub d_xor_a_2: XorOperation<T>,
    pub c_plus_d_2: AddOperation<T>,
    pub b_xor_c_2: XorOperation<T>,
    pub b_xor_c_2_rotate_right_7: FixedRotateRightOperation<T>,
    /// The state words `a`, `b`, `c`, `d` after all the steps.
    pub result: [Word<T>; 4],
}

/// Number of columns of one round.
pub const NUM_G_COLS: usize = 98;

impl<T: Copy> GOperation<T> {
    /// The cells of the columns in the order of a row: the fields in the
    /// order of their declaration.
    pub open spec fn flat(self) -> Seq<T> {
        self.a_plus_b.flat() + self.a_plus_b_plus_x.flat() + self.d_xor_a.flat()
            + self.c_plus_d.flat() + self.b_xor_c.flat() + self.b_xor_c_rotate_right_12.flat()
            + self.a_plus_b_2.flat() + self.a_plus_b_2_add_y.flat() + self.d_xor_a_2.flat()
            + self.c_plus_d_2.flat() + self.b_xor_c_2.flat()
            + self.b_xor_c_2_rotate_right_7.flat() + self.result[0].0@ + self.result[1].0@
            + self.result[2].0@ + self.result[3].0@
    }

    /// The columns whose cells are the cells of `row` from `start` on.
    pub fn from_row(row: &[T], start: usize) -> (cols: Self)
        requires
            start + NUM_G_COLS <= row.len(),
        ensures
            cols.flat() == row@.subrange(start as int, start + NUM_G_COLS),
    {
        let cols = GOperation {
            a_plus_b: AddOperation::from_row(row, start),
            a_plus_b_plus_x: AddOperation::from_row(row, start + 7),
            d_xor_a: XorOperation::from_row(row, start + 14),
            c_plus_d: AddOperation::from_row(row, start + 18),
            b_xor_c: XorOperation::from_row(row, start + 25),
            b_xor_c_rotate_right_12: FixedRotateRightOperation::from_row(row, start + 29),
            a_plus_b_2: AddOperation::from_row(row, start + 41),
            a_plus_b_2_add_y: AddOperation::from_row(row, start + 48),
            d_xor_a_2: XorOperation::from_row(row, start + 55),
            c_plus_d_2: AddOperation::from_row(row, start + 59),
            b_xor_c_2: XorOperation::from_row(row, start + 66),
            b_xor_c_2_rotate_right_7: FixedRotateRightOperation::from_row(row, start + 70),
            result: [
                Word(crate::trace::read_array(row, start + 82)),
                Word(crate::trace::read_array(row, start + 86)),
                Word(crate::trace::read_array(row, start + 90)),
                Word(crate::trace::read_array(row, start + 94)),
            ],
        };
        assert(cols.flat() =~= row@.subrange(start as int, start + NUM_G_COLS));
        cols
    }

    /// Appends the cells of the columns to `row`.
    pub fn append_to(&self, row: &mut Vec<T>)
        ensures
            final(row)@ == old(row)@ + self.flat(),
            self.flat().len() == NUM_G_COLS,
    {
        self.a_plus_b.append_to(row);
        self.a_plus_b_plus_x.append_to(row);
        self.d_xor_a.append_to(row);
        self.c_plus_d.append_to(row);
        self.b_xor_c.append_to(row);
        self.b_xor_c_rotate_right_12.append_to(row);
        self.a_plus_b_2.append_to(row);
        self.a_plus_b_2_add_y.append_to(row);
        self.d_xor_a_2.append_to(row);
        self.c_plus_d_2.append_to(row);
        self.b_xor_c_2.append_to(row);
        self.b_xor_c_2_rotate_right_7.append_to(row);
        crate::trace::append_array(&self.result[0].0, row);
        crate::trace::append_array(&self.result[1].0, row);
        crate::trace::append_array(&self.result[2].0, row);
        crate::trace::append_array(&self.result[3].0, row);
        assert(row@ =~= old(row)@ + self.flat());
    }
}

/// The identities of one round over the six input words and the columns:
/// every step satisfies the identities of its gadget on the outputs of the
/// steps before it, and the result columns hold the last `a`, `b`, `c`, `d`.
#[verifier::opaque]
pub open spec fn g_relation<B: ConstraintBuilder>(
    input: [Word<B::Var>; 6],
    cols: GOperation<B::Var>,
    is_real: B::Var,
) -> bool {
    let r = B::var_value(is_real);
    let p = B::modulus();
    let a = word_values::<B>(input[0]);
    let b = word_values::<B>(input[1]);
    let c = word_values::<B>(input[2]);
    let d = word_values::<B>(input[3]);
    let x = word_values::<B>(input[4]);
    let y = word_values::<B>(input[5]);
    let a_plus_b = word_values::<B>(cols.a_plus_b.value);
    let a_1 = word_values::<B>(cols.a_plus_b_plus_x.value);
    let d_xor_a = word_values::<B>(cols.d_xor_a.value);
    let d_1 = lanes_rotated(d_xor_a, 2);
    let c_1 = word_values::<B>(cols.c_plus_d.value);
    let b_xor_c = word_values::<B>(cols.b_xor_c.value);
    let b_1 = word_values::<B>(cols.b_xor_c_rotate_right_12.value);
    let a_plus_b_2 = word_values::<B>(cols.a_plus_b_2.value);
    let a_2 = word_values::<B>(cols.a_plus_b_2_add_y.value);
    let d_xor_a_2 = word_values::<B>(cols.d_xor_a_2.value);
    let d_2 = lanes_rotated(d_xor_a_2, 1);
    let c_2 = word_values::<B>(cols.c_plus_d_2.value);
    let b_xor_c_2 = word_values::<B>(cols.b_xor_c_2.value);
    let b_2 = word_values::<B>(cols.b_xor_c_2_rotate_right_7.value);
    &&& vanishes(r * (r - 1), p)
    &&& add_relation(a, b, a_plus_b, carry_values::<B>(cols.a_plus_b.carry), r, p)
    &&& add_relation(a_plus_b, x, a_1, carry_values::<B>(cols.a_plus_b_plus_x.carry), r, p)
    &&& xor_relation(d, a_1, d_xor_a, r, p)
    &&& add_relation(c, d_1, c_1, carry_values::<B>(cols.c_plus_d.carry), r, p)
    &&& xor_relation(b, c_1, b_xor_c, r, p)
    &&& rotate_relation(
        b_xor_c,
        12,
        word_values::<B>(cols.b_xor_c_rotate_right_12.shift),
        word_values::<B>(cols.b_xor_c_rotate_right_12.carry),
        b_1,
        r,
        p,
    )
    &&& add_relation(a_1, b_1, a_plus_b_2, carry_values::<B>(cols.a_plus_b_2.carry), r, p)
    &&& add_relation(a_plus_b_2, y, a_2, carry_values::<B>(cols.a_plus_b_2_add_y.carry), r, p)
    &&& xor_relation(d_1, a_2, d_xor_a_2, r, p)
    &&& add_relation(c_1, d_2, c_2, carry_values::<B>(cols.c_plus_d_2.carry), r, p)
    &&& xor_relation(b_1, c_2, b_xor_c_2, r, p)
    &&& rotate_relation(
        b_xor_c_2,
        7,
        word_values::<B>(cols.b_xor_c_2_rotate_right_7.shift),
        word_values::<B>(cols.b_xor_c_2_rotate_right_7.carry),
        b_2,
        r,
        p,
    )
    &&& words_agree(word_values::<B>(cols.result[0]), a_2, p)
    &&& words_agree(word_values::<B>(cols.result[1]), b_2, p)
    &&& words_agree(word_values::<B>(cols.result[2]), c_2, p)
    &&& words_agree(word_values::<B>(cols.result[3]), d_2, p)
    &&& vanishes(r * r * r - r * r * r, p)
}

impl GOperation<u32> {
    /// The columns of the round on `input`.
    pub open spec fn witness(input: [u32; 6]) -> GOperation<u32> {
        let s = g_steps(input);
        GOperation {
            a_plus_b: AddOperation::witness(input[0], input[1]),
            a_plus_b_plus_x: AddOperation::witness(s.a_plus_b, input[4]),
            d_xor_a: XorOperation::witness(input[3], s.a_1),
            c_plus_d: AddOperation::witness(input[2], s.d_1),
            b_xor_c: XorOperation::witness(input[1], s.c_1),
            b_xor_c_rotate_right_12: FixedRotateRightOperation::witness(s.b_xor_c, 12),
            a_plus_b_2: AddOperation::witness(s.a_1, s.b_1),
            a_plus_b_2_add_y: AddOperation::witness(s.a_plus_b_2, input[5]),
            d_xor_a_2: XorOperation::witness(s.d_1, s.a_2),
            c_plus_d_2: AddOperation::witness(s.c_1, s.d_2),
            b_xor_c_2: XorOperation::witness(s.b_1, s.c_2),
            b_xor_c_2_rotate_right_7: FixedRotateRightOperation::witness(s.b_xor_c_2, 7),
            result: [word_of(s.a_2), word_of(s.b_2), word_of(s.c_2), word_of(s.d_2)],
        }
    }

    /// Fills the columns for one round on `input`, which holds `a`, `b`, `c`,
    /// `d`, `x`, `y`; leaves the lookups of every step in `record`; returns
    /// `a`, `b`, `c`, `d` after the round.
    #[verifier::rlimit(40)]
    pub fn populate(&mut self, record: &mut ExecutionRecord, input: [u32; 6]) -> (result: [u32; 4])
        ensures
            result@ == g_func(input),
            *final(self) == Self::witness(input),
            final(record).byte_lookup_events@ == old(record).byte_lookup_events@ + g_events(input),
            final(record).same_but_lookups(*old(record)),
    {
        let mut a: u32 = input[0];
        let mut b: u32 = input[1];
        let mut c: u32 = input[2];
        let mut d: u32 = input[3];
        let x: u32 = input[4];
        let y: u32 = input[5];
        let ghost s = g_steps(input);
        let ghost before = record.byte_lookup_events@;
        let ghost mut emitted: Seq<ByteLookupEvent> = Seq::empty();
        assert(record.byte_lookup_events@ =~= before + emitted);

        // First four steps.
        a = self.a_plus_b.populate(record, a, b);
        proof {
            assert(record.byte_lookup_events@ =~= before + (emitted + add_events(
                input[0],
                input[1],
            )));
            emitted = emitted + add_events(input[0], input[1]);
        }
        a = self.a_plus_b_plus_x.populate(record, a, x);
        proof {
            assert(record.byte_lookup_events@ =~= before + (emitted + add_events(
                s.a_plus_b,
                input[4],
            )));
            emitted = emitted + add_events(s.a_plus_b, input[4]);
        }
        d = self.d_xor_a.populate(record, d, a);
        proof {
            assert(record.byte_lookup_events@ =~= before + (emitted + xor_events(input[3], s.a_1)));
            emitted = emitted + xor_events(input[3], s.a_1);
        }
        d = rotate_right(d, 16);
        c = self.c_plus_d.populate(record, c, d);
        proof {
            assert(record.byte_lookup_events@ =~= before + (emitted + add_events(input[2], s.d_1)));
            emitted = emitted + add_events(input[2], s.d_1);
        }
        b = self.b_xor_c.populate(record, b, c);
        proof {
            assert(record.byte_lookup_events@ =~= before + (emitted + xor_events(input[1], s.c_1)));
            emitted = emitted + xor_events(input[1], s.c_1);
        }
        b = self.b_xor_c_rotate_right_12.populate(record, b, 12);
        proof {
            assert(record.byte_lookup_events@ =~= before + (emitted + rotate_events(
                s.b_xor_c,
                12,
            )));
            emitted = emitted + rotate_events(s.b_xor_c, 12);
        }

        // Second four steps.
        a = self.a_plus_b_2.populate(record, a, b);
        proof {
            assert(record.byte_lookup_events@ =~= before + (emitted + add_events(s.a_1, s.b_1)));
            emitted = emitted + add_events(s.a_1, s.b_1);
        }
        a = self.a_plus_b_2_add_y.populate(record, a, y);
        proof {
            assert(record.byte_lookup_events@ =~= before + (emitted + add_events(
                s.a_plus_b_2,
                input[5],
            )));
            emitted = emitted + add_events(s.a_plus_b_2, input[5]);
        }
        d = self.d_xor_a_2.populate(record, d, a);
        proof {
            assert(record.byte_lookup_events@ =~= before + (emitted + xor_events(s.d_1, s.a_2)));
            emitted = emitted + xor_events(s.d_1, s.a_2);
        }
        d = rotate_right(d, 8);
        c = self.c_plus_d_2.populate(record, c, d);
        proof {
            assert(record.byte_lookup_events@ =~= before + (emitted + add_events(s.c_1, s.d_2)));
            emitted = emitted + add_events(s.c_1, s.d_2);
        }
        b = self.b_xor_c_2.populate(record, b, c);
        proof {
            assert(record.byte_lookup_events@ =~= before + (emitted + xor_events(s.b_1, s.c_2)));
            emitted = emitted + xor_events(s.b_1, s.c_2);
        }
        b = self.b_xor_c_2_rotate_right_7.populate(record, b, 7);
        proof {
            assert(record.byte_lookup_events@ =~= before + (emitted + rotate_events(
                s.b_xor_c_2,
                7,
            )));
            emitted = emitted + rotate_events(s.b_xor_c_2, 7);
        }

        let result: [u32; 4] = [a, b, c, d];
        self.result = [Word::from_u32(a), Word::from_u32(b), Word::from_u32(c), Word::from_u32(d)];
        proof {
            assert(result@ =~= g_func(input));
            assert(self.result =~= Self::witness(input).result);
            assert(emitted =~= g_events(input));
        }
        result
    }

    /// States the identities of one round on the rows where `is_real` is one.
    pub fn eval<B: ConstraintBuilder>(
        builder: &mut B,
        input: [Word<B::Var>; 6],
        cols: GOperation<B::Var>,
        is_real: B::Var,
    )
        ensures
            final(builder).state() == old(builder).state().and(g_relation::<B>(
                input,
                cols,
                is_real,
            )),
    {
        proof {
            reveal(g_relation);
        }
        assert_bool(builder, is_real);
        let mut a = input[0];
        let mut b = input[1];
        let mut c = input[2];
        let mut d = input[3];
        let x = input[4];
        let y = input[5];

        // First four steps.
        AddOperation::<u32>::eval(builder, a, b, cols.a_plus_b, is_real);
        a = cols.a_plus_b.value;
        AddOperation::<u32>::eval(builder, a, x, cols.a_plus_b_plus_x, is_real);
        a = cols.a_plus_b_plus_x.value;
        XorOperation::<u32>::eval(builder, d, a, cols.d_xor_a, is_real);
        d = cols.d_xor_a.value;
        // Rotate right by sixteen bits.
        d = Word([d.0[2], d.0[3], d.0[0], d.0[1]]);
        AddOperation::<u32>::eval(builder, c, d, cols.c_plus_d, is_real);
        c = cols.c_plus_d.value;
        XorOperation::<u32>::eval(builder, b, c, cols.b_xor_c, is_real);
        b = cols.b_xor_c.value;
        FixedRotateRightOperation::<u32>::eval(
            builder,
            b,
            12,
            cols.b_xor_c_rotate_right_12,
            is_real,
        );
        b = cols.b_xor_c_rotate_right_12.value;

        // Second four steps.
        AddOperation::<u32>::eval(builder, a, b, cols.a_plus_b_2, is_real);
        a = cols.a_plus_b_2.value;
        AddOperation::<u32>::eval(builder, a, y, cols.a_plus_b_2_add_y, is_real);
        a = cols.a_plus_b_2_add_y.value;
        XorOperation::<u32>::eval(builder, d, a, cols.d_xor_a_2, is_real);
        d = cols.d_xor_a_2.value;
        // Rotate right by eight bits.
        d = Word([d.0[1], d.0[2], d.0[3], d.0[0]]);
        AddOperation::<u32>::eval(builder, c, d, cols.c_plus_d_2, is_real);
        c = cols.c_plus_d_2.value;
        XorOperation::<u32>::eval(builder, b, c, cols.b_xor_c_2, is_real);
        b = cols.b_xor_c_2.value;
        FixedRotateRightOperation::<u32>::eval(
            builder,
            b,
            7,
            cols.b_xor_c_2_rotate_right_7,
            is_real,
        );
        b = cols.b_xor_c_2_rotate_right_7.value;

        assert_words_agree(builder, cols.result[0], a);
        assert_words_agree(builder, cols.result[1], b);
        assert_words_agree(builder, cols.result[2], c);
        assert_words_agree(builder, cols.result[3], d);

        // A constraint of degree three, which the prover's quotient needs.
        let r = B::lift(is_real);
        let cube = B::times(&B::times(&r, &r), &r);
        builder.assert_zero(&B::minus(&cube, &cube));
        proof {
            let moved = cols.d_xor_a.value.0;
            assert(word_values::<B>(Word([moved[2], moved[3], moved[0], moved[1]]))
                =~= lanes_rotated(word_values::<B>(cols.d_xor_a.value), 2));
            let again = cols.d_xor_a_2.value.0;
            assert(word_values::<B>(Word([again[1], again[2], again[3], again[0]]))
                =~= lanes_rotated(word_values::<B>(cols.d_xor_a_2.value), 1));
        }
    }
}

/// The six words of `input` as words of cells.
pub open spec fn input_words(input: [u32; 6]) -> [Word<u32>; 6] {
    [
        word_of(input[0]),
        word_of(input[1]),
        word_of(input[2]),
        word_of(input[3]),
        word_of(input[4]),
        word_of(input[5]),
    ]
}

/// The lanes of a word rotated by whole bytes are the lanes of the word,
/// moved.
proof fn lemma_lanes_rotated(x: u32, nb: int)
    requires
        0 <= nb < 4,
    ensures
        lanes_rotated(lanes(x), nb) == lanes(rotr(x, 8 * nb)),
{
    lemma_rotr_whole_bytes(x, nb);
    assert(lanes_rotated(lanes(x), nb) =~= lanes(rotr(x, 8 * nb)));
}

/// Witness and constraints agree on a round: the columns that `populate`
/// fills for `input` pass, with the words of `input`, every identity that
/// `eval` states, whether the row counts as real or not.
pub proof fn lemma_g_witness_satisfies<const P: u32>(input: [u32; 6], is_real: u32)
    requires
        P > 256,
        is_real <= 1,
    ensures
        g_relation::<RowEvaluator<P>>(input_words(input), GOperation::witness(input), is_real),
{
    reveal(g_relation);
    let p = P as int;
    let r = is_real as int;
    let s = g_steps(input);
    let cols = GOperation::witness(input);
    let words = input_words(input);
    lemma_small_mod(0, p as nat);
    assert(r * (r - 1) == 0) by (nonlinear_arith)
        requires
            r == 0 || r == 1,
    ;
    assert(r * r * r - r * r * r == 0);
    // What the evaluator reads in the input words.
    lemma_evaluator_reads_cells::<P>(words[0]);
    lemma_evaluator_reads_cells::<P>(words[1]);
    lemma_evaluator_reads_cells::<P>(words[2]);
    lemma_evaluator_reads_cells::<P>(words[3]);
    lemma_evaluator_reads_cells::<P>(words[4]);
    lemma_evaluator_reads_cells::<P>(words[5]);
    lemma_word_of(input[0]);
    lemma_word_of(input[1]);
    lemma_word_of(input[2]);
    lemma_word_of(input[3]);
    lemma_word_of(input[4]);
    lemma_word_of(input[5]);
    // What the evaluator reads in the columns.
    lemma_evaluator_reads_cells::<P>(cols.a_plus_b.value);
    lemma_evaluator_reads_cells::<P>(cols.a_plus_b_plus_x.value);
    lemma_evaluator_reads_cells::<P>(cols.d_xor_a.value);
    lemma_evaluator_reads_cells::<P>(cols.c_plus_d.value);
    lemma_evaluator_reads_cells::<P>(cols.b_xor_c.value);
    lemma_evaluator_reads_cells::<P>(cols.b_xor_c_rotate_right_12.value);
    lemma_evaluator_reads_cells::<P>(cols.b_xor_c_rotate_right_12.shift);
    lemma_evaluator_reads_cells::<P>(cols.b_xor_c_rotate_right_12.carry);
    lemma_evaluator_reads_cells::<P>(cols.a_plus_b_2.value);
    lemma_evaluator_reads_cells::<P>(cols.a_plus_b_2_add_y.value);
    lemma_evaluator_reads_cells::<P>(cols.d_xor_a_2.value);
    lemma_evaluator_reads_cells::<P>(cols.c_plus_d_2.value);
    lemma_evaluator_reads_cells::<P>(cols.b_xor_c_2.value);
    lemma_evaluator_reads_cells::<P>(cols.b_xor_c_2_rotate_right_7.value);
    lemma_evaluator_reads_cells::<P>(cols.b_xor_c_2_rotate_right_7.shift);
    lemma_evaluator_reads_cells::<P>(cols.b_xor_c_2_rotate_right_7.carry);
    lemma_evaluator_reads_cells::<P>(cols.result[0]);
    lemma_evaluator_reads_cells::<P>(cols.result[1]);
    lemma_evaluator_reads_cells::<P>(cols.result[2]);
    lemma_evaluator_reads_cells::<P>(cols.result[3]);
    lemma_evaluator_reads_carries::<P>(cols.a_plus_b.carry);
    lemma_evaluator_reads_carries::<P>(cols.a_plus_b_plus_x.carry);
    lemma_evaluator_reads_carries::<P>(cols.c_plus_d.carry);
    lemma_evaluator_reads_carries::<P>(cols.a_plus_b_2.carry);
    lemma_evaluator_reads_carries::<P>(cols.a_plus_b_2_add_y.carry);
    lemma_evaluator_reads_carries::<P>(cols.c_plus_d_2.carry);
    // The lanes of every intermediate word.
    lemma_word_of(s.a_plus_b);
    lemma_word_of(s.a_1);
    lemma_word_of(s.d_xor_a);
    lemma_word_of(s.c_1);
    lemma_word_of(s.b_xor_c);
    lemma_word_of(s.a_plus_b_2);
    lemma_word_of(s.a_2);
    lemma_word_of(s.d_xor_a_2);
    lemma_word_of(s.c_2);
    lemma_word_of(s.b_xor_c_2);
    lemma_word_of(s.b_2);
    lemma_word_of(s.d_2);
    lemma_lanes_rotated(s.d_xor_a, 2);
    lemma_lanes_rotated(s.d_xor_a_2, 1);
    // Every step satisfies its gadget.
    lemma_add_witness_satisfies(input[0], input[1], r, p);
    lemma_add_witness_satisfies(s.a_plus_b, input[4], r, p);
    lemma_xor_witness_satisfies(input[3], s.a_1, r, p);
    lemma_add_witness_satisfies(input[2], s.d_1, r, p);
    lemma_xor_witness_satisfies(input[1], s.c_1, r, p);
    lemma_rotate_witness_satisfies(s.b_xor_c, 12, r, p);
    lemma_add_witness_satisfies(s.a_1, s.b_1, r, p);
    lemma_add_witness_satisfies(s.a_plus_b_2, input[5], r, p);
    lemma_xor_witness_satisfies(s.d_1, s.a_2, r, p);
    lemma_add_witness_satisfies(s.c_1, s.d_2, r, p);
    lemma_xor_witness_satisfies(s.b_1, s.c_2, r, p);
    lemma_rotate_witness_satisfies(s.b_xor_c_2, 7, r, p);
    lemma_words_agree(lanes(s.a_2), p);
    lemma_words_agree(lanes(s.b_2), p);
    lemma_words_agree(lanes(s.c_2), p);
    lemma_words_agree(lanes(s.d_2), p);
}

/// Whether every cell of the columns of an addition denotes a residue of the
/// field.
pub open spec fn add_canonical<B: ConstraintBuilder>(cols: AddOperation<B::Var>) -> bool {
    &&& canonical(word_values::<B>(cols.value), B::modulus())
    &&& canonical(carry_values::<B>(cols.carry), B::modulus())
}

/// Whether every cell of the columns of a rotation denotes a residue of the
/// field.
pub open spec fn rotate_canonical<B: ConstraintBuilder>(
    cols: FixedRotateRightOperation<B::Var>,
) -> bool {
    &&& canonical(word_values::<B>(cols.value), B::modulus())
    &&& canonical(word_values::<B>(cols.shift), B::modulus())
    &&& canonical(word_values::<B>(cols.carry), B::modulus())
}

/// Whether every cell of the input words and of the columns of a round
/// denotes a residue of the field.
#[verifier::opaque]
pub open spec fn g_canonical<B: ConstraintBuilder>(
    input: [Word<B::Var>; 6],
    cols: GOperation<B::Var>,
) -> bool {
    let p = B::modulus();
    &&& forall|i: int| 0 <= i < 6 ==> canonical(#[trigger] word_values::<B>(input[i]), p)
    &&& forall|i: int| 0 <= i < 4 ==> canonical(#[trigger] word_values::<B>(cols.result[i]), p)
    &&& add_canonical::<B>(cols.a_plus_b)
    &&& add_canonical::<B>(cols.a_plus_b_plus_x)
    &&& canonical(word_values::<B>(cols.d_xor_a.value), p)
    &&& add_canonical::<B>(cols.c_plus_d)
    &&& canonical(word_values::<B>(cols.b_xor_c.value), p)
    &&& rotate_canonical::<B>(cols.b_xor_c_rotate_right_12)
    &&& add_canonical::<B>(cols.a_plus_b_2)
    &&& add_canonical::<B>(cols.a_plus_b_2_add_y)
    &&& canonical(word_values::<B>(cols.d_xor_a_2.value), p)
    &&& add_canonical::<B>(cols.c_plus_d_2)
    &&& canonical(word_values::<B>(cols.b_xor_c_2.value), p)
    &&& rotate_canonical::<B>(cols.b_xor_c_2_rotate_right_7)
}

/// The words that the lanes of the six input words spell.
pub open spec fn input_of<B: ConstraintBuilder>(input: [Word<B::Var>; 6]) -> [u32; 6] {
    [
        word_from(word_values::<B>(input[0])) as u32,
        word_from(word_values::<B>(input[1])) as u32,
        word_from(word_values::<B>(input[2])) as u32,
        word_from(word_values::<B>(input[3])) as u32,
        word_from(word_values::<B>(input[4])) as u32,
        word_from(word_values::<B>(input[5])) as u32,
    ]
}

/// Lanes that spell a word are the lanes of that word.
proof fn lemma_spelled(w: Seq<int>, x: u32)
    requires
        w.len() == 4,
        all_bytes(w),
        word_from(w) == x,
    ensures
        w == lanes(x),
{
    reveal(all_bytes);
    lemma_lanes_of_bytes(w);
}

/// Two words of bytes that agree in a field of more than two hundred and
/// fifty-six elements are equal.
proof fn lemma_agreeing_words(v: Seq<int>, w: Seq<int>, p: int)
    requires
        p > 256,
        v.len() == 4,
        w.len() == 4,
        canonical(v, p),
        all_bytes(w),
        words_agree(v, w, p),
    ensures
        v == w,
{
    reveal(canonical);
    reveal(all_bytes);
    assert forall|i: int| 0 <= i < 4 implies v[i] == w[i] by {
        assert(0 <= v[i] < p);
        assert(0 <= w[i] < 256);
        lemma_small_vanishes(v[i] - w[i], p);
    }
    assert(v =~= w);
}

/// The four steps of a half-round on the state words `a`, `b`, `c`, `d` and
/// the message word `x`, with a rotation of `d` by `nb` bytes and of `b` by
/// `bits` bits.
pub open spec fn half_round(a: u32, b: u32, c: u32, d: u32, x: u32, nb: int, bits: int) -> (
    u32,
    u32,
    u32,
    u32,
) {
    let a_1 = wrapping_sum(wrapping_sum(a, b), x);
    let d_1 = rotr(d ^ a_1, 8 * nb);
    let c_1 = wrapping_sum(c, d_1);
    let b_1 = rotr(b ^ c_1, bits);
    (a_1, b_1, c_1, d_1)
}

/// The lanes of a word of bytes, moved down by `nb` places, are bytes and
/// spell the word rotated by `nb` bytes.
proof fn lemma_rotated_spelled(w: Seq<int>, nb: int, p: int)
    requires
        p >= 256,
        0 <= nb < 4,
        w.len() == 4,
        all_bytes(w),
    ensures
        lanes_rotated(w, nb).len() == 4,
        all_bytes(lanes_rotated(w, nb)),
        canonical(lanes_rotated(w, nb), p),
        0 <= word_from(w) < 0x1_0000_0000,
        word_from(lanes_rotated(w, nb)) == rotr(word_from(w) as u32, 8 * nb),
{
    assert(w == lanes(word_from(w) as u32) && 0 <= word_from(w) < 0x1_0000_0000) by {
        reveal(all_bytes);
        lemma_lanes_of_bytes(w);
    }
    let x = word_from(w) as u32;
    lemma_lanes_rotated(x, nb);
    lemma_lanes_are_bytes(rotr(x, 8 * nb), p);
    lemma_lanes(rotr(x, 8 * nb));
}

/// Bytes spell a word below two to the thirty-second.
proof fn lemma_word_of_bytes(w: Seq<int>)
    requires
        w.len() == 4,
        all_bytes(w),
    ensures
        0 <= word_from(w) < 0x1_0000_0000,
{
    reveal(all_bytes);
    lemma_lanes_of_bytes(w);
}

/// The identities of a half-round are sound: columns that satisfy them on a
/// real row hold the words of the half-round on the words that the lanes of
/// its inputs spell.
proof fn lemma_half_sound(
    a: Seq<int>,
    b: Seq<int>,
    c: Seq<int>,
    d: Seq<int>,
    x: Seq<int>,
    a_plus_b: Seq<int>,
    a_plus_b_carry: Seq<int>,
    a_1: Seq<int>,
    a_1_carry: Seq<int>,
    d_xor_a: Seq<int>,
    c_1: Seq<int>,
    c_1_carry: Seq<int>,
    b_xor_c: Seq<int>,
    shift: Seq<int>,
    carry: Seq<int>,
    b_1: Seq<int>,
    nb: int,
    bits: int,
    p: int,
)
    requires
        is_field(p),
        p > 1024,
        0 <= nb < 4,
        0 <= bits,
        a.len() == 4 && b.len() == 4 && c.len() == 4 && d.len() == 4 && x.len() == 4,
        a_plus_b.len() == 4 && a_1.len() == 4 && d_xor_a.len() == 4 && c_1.len() == 4
            && b_xor_c.len() == 4 && shift.len() == 4 && carry.len() == 4 && b_1.len() == 4,
        a_plus_b_carry.len() == 3 && a_1_carry.len() == 3 && c_1_carry.len() == 3,
        canonical(a, p) && canonical(b, p) && canonical(c, p) && canonical(d, p) && canonical(
            x,
            p,
        ),
        canonical(a_plus_b, p) && canonical(a_1, p) && canonical(d_xor_a, p) && canonical(c_1, p)
            && canonical(b_xor_c, p) && canonical(shift, p) && canonical(carry, p) && canonical(
            b_1,
            p,
        ),
        canonical(a_plus_b_carry, p) && canonical(a_1_carry, p) && canonical(c_1_carry, p),
        add_relation(a, b, a_plus_b, a_plus_b_carry, 1, p),
        add_relation(a_plus_b, x, a_1, a_1_carry, 1, p),
        xor_relation(d, a_1, d_xor_a, 1, p),
        add_relation(c, lanes_rotated(d_xor_a, nb), c_1, c_1_carry, 1, p),
        xor_relation(b, c_1, b_xor_c, 1, p),
        rotate_relation(b_xor_c, bits, shift, carry, b_1, 1, p),
    ensures
        all_bytes(a) && all_bytes(b) && all_bytes(c) && all_bytes(d) && all_bytes(x),
        all_bytes(a_1) && all_bytes(b_1) && all_bytes(c_1) && all_bytes(
            lanes_rotated(d_xor_a, nb),
        ),
        ({
            let h = half_round(
                word_from(a) as u32,
                word_from(b) as u32,
                word_from(c) as u32,
                word_from(d) as u32,
                word_from(x) as u32,
                nb,
                bits,
            );
            &&& word_from(a_1) == h.0
            &&& word_from(b_1) == h.1
            &&& word_from(c_1) == h.2
            &&& word_from(lanes_rotated(d_xor_a, nb)) == h.3
        }),
{
    lemma_add_sound(a, b, a_plus_b, a_plus_b_carry, p);
    lemma_word_of_bytes(a);
    lemma_word_of_bytes(b);
    lemma_add_sound(a_plus_b, x, a_1, a_1_carry, p);
    lemma_word_of_bytes(x);
    lemma_word_of_bytes(a_plus_b);
    lemma_xor_sound(d, a_1, d_xor_a, p);
    lemma_word_of_bytes(d);
    lemma_word_of_bytes(a_1);
    lemma_rotated_spelled(d_xor_a, nb, p);
    let d_1 = lanes_rotated(d_xor_a, nb);
    lemma_add_sound(c, d_1, c_1, c_1_carry, p);
    lemma_word_of_bytes(c);
    lemma_word_of_bytes(d_1);
    lemma_xor_sound(b, c_1, b_xor_c, p);
    lemma_word_of_bytes(c_1);
    lemma_rotate_sound(b_xor_c, bits, shift, carry, b_1, p);
}

/// A round is two half-rounds, the second on the words of the first and the
/// second message word.
proof fn lemma_two_halves(words: [u32; 6])
    ensures
        ({
            let first = half_round(words[0], words[1], words[2], words[3], words[4], 2, 12);
            let second = half_round(first.0, first.1, first.2, first.3, words[5], 1, 7);
            g_func(words) == seq![second.0, second.1, second.2, second.3]
        }),
{
    let first = half_round(words[0], words[1], words[2], words[3], words[4], 2, 12);
    let second = half_round(first.0, first.1, first.2, first.3, words[5], 1, 7);
    assert(g_func(words) =~= seq![second.0, second.1, second.2, second.3]);
}

/// What the first half-round of a row that satisfies the identities holds.
pub open spec fn first_half_holds<B: ConstraintBuilder>(
    input: [Word<B::Var>; 6],
    cols: GOperation<B::Var>,
    first: (u32, u32, u32, u32),
) -> bool {
    &&& all_bytes(word_values::<B>(cols.a_plus_b_plus_x.value))
    &&& all_bytes(word_values::<B>(cols.b_xor_c_rotate_right_12.value))
    &&& all_bytes(word_values::<B>(cols.c_plus_d.value))
    &&& all_bytes(lanes_rotated(word_values::<B>(cols.d_xor_a.value), 2))
    &&& word_from(word_values::<B>(cols.a_plus_b_plus_x.value)) == first.0
    &&& word_from(word_values::<B>(cols.b_xor_c_rotate_right_12.value)) == first.1
    &&& word_from(word_values::<B>(cols.c_plus_d.value)) == first.2
    &&& word_from(lanes_rotated(word_values::<B>(cols.d_xor_a.value), 2)) == first.3
}

/// The identities of the first half-round on a real row.
proof fn lemma_first_half<B: ConstraintBuilder>(
    input: [Word<B::Var>; 6],
    cols: GOperation<B::Var>,
    is_real: B::Var,
)
    requires
        is_field(B::modulus()),
        B::modulus() > 1024,
        B::var_value(is_real) == 1,
        g_canonical::<B>(input, cols),
        g_relation::<B>(input, cols, is_real),
    ensures
        all_bytes(word_values::<B>(input[0])) && all_bytes(word_values::<B>(input[1]))
            && all_bytes(word_values::<B>(input[2])) && all_bytes(word_values::<B>(input[3]))
            && all_bytes(word_values::<B>(input[4])),
        ({
            let w = input_of::<B>(input);
            first_half_holds::<B>(
                input,
                cols,
                half_round(w[0], w[1], w[2], w[3], w[4], 2, 12),
            )
        }),
{
    reveal(g_relation);
    reveal(g_canonical);
    let p = B::modulus();
    assert(canonical(word_values::<B>(input[0]), p) && canonical(word_values::<B>(input[1]), p)
        && canonical(word_values::<B>(input[2]), p) && canonical(word_values::<B>(input[3]), p)
        && canonical(word_values::<B>(input[4]), p));
    lemma_half_sound(
        word_values::<B>(input[0]),
        word_values::<B>(input[1]),
        word_values::<B>(input[2]),
        word_values::<B>(input[3]),
        word_values::<B>(input[4]),
        word_values::<B>(cols.a_plus_b.value),
        carry_values::<B>(cols.a_plus_b.carry),
        word_values::<B>(cols.a_plus_b_plus_x.value),
        carry_values::<B>(cols.a_plus_b_plus_x.carry),
        word_values::<B>(cols.d_xor_a.value),
        word_values::<B>(cols.c_plus_d.value),
        carry_values::<B>(cols.c_plus_d.carry),
        word_values::<B>(cols.b_xor_c.value),
        word_values::<B>(cols.b_xor_c_rotate_right_12.shift),
        word_values::<B>(cols.b_xor_c_rotate_right_12.carry),
        word_values::<B>(cols.b_xor_c_rotate_right_12.value),
        2,
        12,
        p,
    );
}

/// The identities of the second half-round and of the result on a real row
/// whose first half-round holds the words `first`.
proof fn lemma_second_half<B: ConstraintBuilder>(
    input: [Word<B::Var>; 6],
    cols: GOperation<B::Var>,
    is_real: B::Var,
    first: (u32, u32, u32, u32),
)
    requires
        is_field(B::modulus()),
        B::modulus() > 1024,
        B::var_value(is_real) == 1,
        g_canonical::<B>(input, cols),
        g_relation::<B>(input, cols, is_real),
        first_half_holds::<B>(input, cols, first),
    ensures
        all_bytes(word_values::<B>(input[5])),
        ({
            let y = word_from(word_values::<B>(input[5])) as u32;
            let h = half_round(first.0, first.1, first.2, first.3, y, 1, 7);
            &&& word_values::<B>(cols.result[0]) == lanes(h.0)
            &&& word_values::<B>(cols.result[1]) == lanes(h.1)
            &&& word_values::<B>(cols.result[2]) == lanes(h.2)
            &&& word_values::<B>(cols.result[3]) == lanes(h.3)
        }),
{
    reveal(g_relation);
    reveal(g_canonical);
    let p = B::modulus();
    let a_1 = word_values::<B>(cols.a_plus_b_plus_x.value);
    let b_1 = word_values::<B>(cols.b_xor_c_rotate_right_12.value);
    let c_1 = word_values::<B>(cols.c_plus_d.value);
    let d_xor_a = word_values::<B>(cols.d_xor_a.value);
    let d_1 = lanes_rotated(d_xor_a, 2);
    let d_xor_a_2 = word_values::<B>(cols.d_xor_a_2.value);
    let d_2 = lanes_rotated(d_xor_a_2, 1);
    let a_2 = word_values::<B>(cols.a_plus_b_2_add_y.value);
    let b_2 = word_values::<B>(cols.b_xor_c_2_rotate_right_7.value);
    let c_2 = word_values::<B>(cols.c_plus_d_2.value);
    assert(canonical(d_1, p) && d_1.len() == 4) by {
        lemma_bytes_canonical(d_1, p);
    }
    assert(canonical(word_values::<B>(input[5]), p));
    lemma_half_sound(
        a_1,
        b_1,
        c_1,
        d_1,
        word_values::<B>(input[5]),
        word_values::<B>(cols.a_plus_b_2.value),
        carry_values::<B>(cols.a_plus_b_2.carry),
        a_2,
        carry_values::<B>(cols.a_plus_b_2_add_y.carry),
        d_xor_a_2,
        c_2,
        carry_values::<B>(cols.c_plus_d_2.carry),
        word_values::<B>(cols.b_xor_c_2.value),
        word_values::<B>(cols.b_xor_c_2_rotate_right_7.shift),
        word_values::<B>(cols.b_xor_c_2_rotate_right_7.carry),
        b_2,
        1,
        7,
        p,
    );
    let y = word_from(word_values::<B>(input[5])) as u32;
    let h = half_round(first.0, first.1, first.2, first.3, y, 1, 7);
    lemma_spelled(a_2, h.0);
    lemma_spelled(b_2, h.1);
    lemma_spelled(c_2, h.2);
    lemma_spelled(d_2, h.3);
    assert(canonical(word_values::<B>(cols.result[0]), p) && canonical(
        word_values::<B>(cols.result[1]),
        p,
    ) && canonical(word_values::<B>(cols.result[2]), p) && canonical(
        word_values::<B>(cols.result[3]),
        p,
    ));
    lemma_agreeing_words(word_values::<B>(cols.result[0]), a_2, p);
    lemma_agreeing_words(word_values::<B>(cols.result[1]), b_2, p);
    lemma_agreeing_words(word_values::<B>(cols.result[2]), c_2, p);
    lemma_agreeing_words(word_values::<B>(cols.result[3]), d_2, p);
}

/// Bytes are residues of every field that holds a byte.
proof fn lemma_bytes_canonical(w: Seq<int>, p: int)
    requires
        p >= 256,
        all_bytes(w),
    ensures
        canonical(w, p),
{
    reveal(canonical);
    reveal(all_bytes);
}

/// The identities of a round are sound: in a field of more than a thousand
/// and twenty-four elements, columns that satisfy them on a real row hold
/// in their result the four state words of the round on the words that the
/// lanes of the input spell.
pub proof fn lemma_g_sound<B: ConstraintBuilder>(
    input: [Word<B::Var>; 6],
    cols: GOperation<B::Var>,
    is_real: B::Var,
)
    requires
        is_field(B::modulus()),
        B::modulus() > 1024,
        B::var_value(is_real) == 1,
        g_canonical::<B>(input, cols),
        g_relation::<B>(input, cols, is_real),
    ensures
        forall|i: int| 0 <= i < 6 ==> all_bytes(#[trigger] word_values::<B>(input[i])),
        forall|i: int|
            0 <= i < 4 ==> #[trigger] word_values::<B>(cols.result[i]) == lanes(
                g_func(input_of::<B>(input))[i],
            ),
{
    let w = input_of::<B>(input);
    let first = half_round(w[0], w[1], w[2], w[3], w[4], 2, 12);
    lemma_first_half::<B>(input, cols, is_real);
    lemma_second_half::<B>(input, cols, is_real, first);
    lemma_two_halves(w);
    assert forall|i: int| 0 <= i < 6 implies all_bytes(#[trigger] word_values::<B>(input[i])) by {
        if i == 0 {
        } else if i == 1 {
        } else if i == 2 {
        } else if i == 3 {
        } else if i == 4 {
        } else {
            assert(i == 5);
        }
    }
    assert forall|i: int| 0 <= i < 4 implies #[trigger] word_values::<B>(cols.result[i]) == lanes(
        g_func(w)[i],
    ) by {
        if i == 0 {
        } else if i == 1 {
        } else if i == 2 {
        } else {
            assert(i == 3);
        }
    }
}

impl Default for GOperation<u32> {
    /// The columns of the round on six zero words, which are all zero.
    fn default() -> (cols: Self)
        ensures
            cols == Self::witness([0u32, 0u32, 0u32, 0u32, 0u32, 0u32]),
    {
        let cols = GOperation {
            a_plus_b: AddOperation::default(),
            a_plus_b_plus_x: AddOperation::default(),
            d_xor_a: XorOperation::default(),
            c_plus_d: AddOperation::default(),
            b_xor_c: XorOperation::default(),
            b_xor_c_rotate_right_12: FixedRotateRightOperation::default(),
            a_plus_b_2: AddOperation::default(),
            a_plus_b_2_add_y: AddOperation::default(),
            d_xor_a_2: XorOperation::default(),
            c_plus_d_2: AddOperation::default(),
            b_xor_c_2: XorOperation::default(),
            b_xor_c_2_rotate_right_7: FixedRotateRightOperation::default(),
            result: [Word::default(), Word::default(), Word::default(), Word::default()],
        };
        proof {
            let input = [0u32, 0u32, 0u32, 0u32, 0u32, 0u32];
            let s = g_steps(input);
            assert(0u32 ^ 0u32 == 0u32) by (bit_vector);
            lemma_rotr_zero(16);
            lemma_rotr_zero(12);
            lemma_rotr_zero(8);
            lemma_rotr_zero(7);
            assert(cols.result =~= Self::witness(input).result);
        }
        cols
    }
}

} // verus!
