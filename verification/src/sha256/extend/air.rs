//! The constraints of the schedule extension.

use vstd::prelude::*;
use crate::builder::{
    ConstraintBuilder, BuilderState, word_values, words_agree, assert_words_agree,
    lemma_words_agree, is_field, canonical, all_bytes, lemma_small_vanishes,
};
use crate::operations::add::word_from;
use crate::operations::add4::lemma_add4_sound;
use crate::operations::rotate_right::lemma_rotate_sound;
use crate::operations::shift_right::lemma_shift_sound;
use crate::operations::xor::lemma_xor_sound;
use crate::word::{lanes, lemma_lanes_of_bytes};
use crate::evaluator::{RowEvaluator, lemma_evaluator_reads_cells};
use crate::memory::{
    MemoryReadCols, MemoryReadRecord, MemoryWriteCols, access_state, access_values,
    eval_memory_access, read_claimable, write_claimable, lemma_access_witness_satisfies,
    lemma_access_unconstrained,
};
use crate::operations::add4::{
    Add4Operation, add4_relation, lemma_add4_witness_satisfies, lemma_add4_unconstrained,
};
use crate::operations::rotate_right::{
    FixedRotateRightOperation, rotate_relation, rotr, lemma_rotate_witness_satisfies,
};
use crate::operations::shift_right::{
    FixedShiftRightOperation, shift_relation, shr, lemma_shift_witness_satisfies,
};
use crate::operations::xor::{XorOperation, xor_relation, lemma_xor_witness_satisfies};
use crate::word::{Word, word_of, cells, lemma_word_of};
use super::trace::{round_cols, is_trace_row};
use super::{
    ShaExtendChip, ShaExtendCols, ShaExtendEvent, small_sigma_0, small_sigma_1, extended_word,
};

verus! {

/// The identities of a mixing function on a row: two rotations and a shift
/// of the word `w`, and the exclusive or of the three.
pub open spec fn sigma_relation<B: ConstraintBuilder>(
    w: Word<B::Var>,
    first: int,
    rotated_first: FixedRotateRightOperation<B::Var>,
    second: int,
    rotated_second: FixedRotateRightOperation<B::Var>,
    third: int,
    shifted: FixedShiftRightOperation<B::Var>,
    intermediate: XorOperation<B::Var>,
    sigma: XorOperation<B::Var>,
    is_real: B::Var,
) -> bool {
    let r = B::var_value(is_real);
    let p = B::modulus();
    &&& rotate_relation(
        word_values::<B>(w),
        first,
        word_values::<B>(rotated_first.shift),
        word_values::<B>(rotated_first.carry),
        word_values::<B>(rotated_first.value),
        r,
        p,
    )
    &&& rotate_relation(
        word_values::<B>(w),
        second,
        word_values::<B>(rotated_second.shift),
        word_values::<B>(rotated_second.carry),
        word_values::<B>(rotated_second.value),
        r,
        p,
    )
    &&& shift_relation(
        word_values::<B>(w),
        third,
        word_values::<B>(shifted.shift),
        word_values::<B>(shifted.carry),
        word_values::<B>(shifted.value),
        r,
        p,
    )
    &&& xor_relation(
        word_values::<B>(rotated_first.value),
        word_values::<B>(rotated_second.value),
        word_values::<B>(intermediate.value),
        r,
        p,
    )
    &&& xor_relation(
        word_values::<B>(intermediate.value),
        word_values::<B>(shifted.value),
        word_values::<B>(sigma.value),
        r,
        p,
    )
}

/// The identities of the computation of a row: the two mixing functions,
/// the sum of the four words, and that the word written is the sum.
pub open spec fn round_relation<B: ConstraintBuilder>(row: ShaExtendCols<B::Var>) -> bool {
    &&& sigma_relation::<B>(
        row.w_i_minus_15.access.value,
        7,
        row.w_i_minus_15_rr_7,
        18,
        row.w_i_minus_15_rr_18,
        3,
        row.w_i_minus_15_rs_3,
        row.s0_intermediate,
        row.s0,
        row.is_real,
    )
    &&& sigma_relation::<B>(
        row.w_i_minus_2.access.value,
        17,
        row.w_i_minus_2_rr_17,
        19,
        row.w_i_minus_2_rr_19,
        10,
        row.w_i_minus_2_rs_10,
        row.s1_intermediate,
        row.s1,
        row.is_real,
    )
    &&& add4_relation(
        word_values::<B>(row.w_i_minus_16.access.value),
        word_values::<B>(row.s0.value),
        word_values::<B>(row.w_i_minus_7.access.value),
        word_values::<B>(row.s1.value),
        word_values::<B>(row.s2.value),
        word_values::<B>(row.s2.is_carry_0),
        word_values::<B>(row.s2.is_carry_1),
        word_values::<B>(row.s2.is_carry_2),
        word_values::<B>(row.s2.is_carry_3),
        word_values::<B>(row.s2.carry),
        B::var_value(row.is_real),
        B::modulus(),
    )
    &&& words_agree(
        word_values::<B>(row.w_i.access.value),
        word_values::<B>(row.s2.value),
        B::modulus(),
    )
}

/// What a builder has been told after the read of the word `back` places
/// before the word of the row is stated.
pub open spec fn read_state<B: ConstraintBuilder>(
    before: BuilderState,
    row: ShaExtendCols<B::Var>,
    read: MemoryReadCols<B::Var>,
    back: int,
) -> BuilderState {
    access_state(
        before,
        B::var_value(row.shard),
        B::var_value(row.clk),
        B::var_value(row.w_ptr) + 4 * (B::var_value(row.i) - back),
        word_values::<B>(read.access.value),
        word_values::<B>(read.access.value),
        access_values::<B>(read.access),
        B::var_value(row.is_real),
        B::modulus(),
    )
}

/// What a builder has been told after a row is stated: the four reads, the
/// identities of the computation, and the write of the new word.
pub open spec fn round_state<B: ConstraintBuilder>(
    before: BuilderState,
    row: ShaExtendCols<B::Var>,
) -> BuilderState {
    let reads = read_state::<B>(
        read_state::<B>(
            read_state::<B>(
                read_state::<B>(before, row, row.w_i_minus_15, 15),
                row,
                row.w_i_minus_2,
                2,
            ),
            row,
            row.w_i_minus_16,
            16,
        ),
        row,
        row.w_i_minus_7,
        7,
    );
    access_state(
        reads.and(round_relation::<B>(row)),
        B::var_value(row.shard),
        B::var_value(row.clk),
        B::var_value(row.w_ptr) + 4 * B::var_value(row.i),
        word_values::<B>(row.w_i.prev_value),
        word_values::<B>(row.w_i.access.value),
        access_values::<B>(row.w_i.access),
        B::var_value(row.is_real),
        B::modulus(),
    )
}

impl ShaExtendChip {
    /// States the identities of a row: those of its accesses to the words of
    /// the schedule, and those of the computation of the new word.
    pub fn eval<B: ConstraintBuilder>(&self, builder: &mut B, row: &ShaExtendCols<B::Var>)
        ensures
            final(builder).state() == round_state::<B>(old(builder).state(), *row),
    {
        let clk = B::lift(row.clk);
        Self::eval_read(builder, row, &row.w_i_minus_15, 15);
        Self::eval_read(builder, row, &row.w_i_minus_2, 2);
        Self::eval_read(builder, row, &row.w_i_minus_16, 16);
        Self::eval_read(builder, row, &row.w_i_minus_7, 7);
        let ghost reads = builder.state();

        // Compute `s0`.
        Self::eval_sigma(
            builder,
            row.w_i_minus_15.access.value,
            7,
            row.w_i_minus_15_rr_7,
            18,
            row.w_i_minus_15_rr_18,
            3,
            row.w_i_minus_15_rs_3,
            row.s0_intermediate,
            row.s0,
            row.is_real,
        );
        // Compute `s1`.
        Self::eval_sigma(
            builder,
            row.w_i_minus_2.access.value,
            17,
            row.w_i_minus_2_rr_17,
            19,
            row.w_i_minus_2_rr_19,
            10,
            row.w_i_minus_2_rs_10,
            row.s1_intermediate,
            row.s1,
            row.is_real,
        );
        // Compute `s2`.
        Add4Operation::<u32>::eval(
            builder,
            row.w_i_minus_16.access.value,
            row.s0.value,
            row.w_i_minus_7.access.value,
            row.s1.value,
            row.s2,
            row.is_real,
        );
        // The word written is the sum.
        assert_words_agree(builder, row.w_i.access.value, row.s2.value);
        assert(builder.state() == reads.and(round_relation::<B>(*row)));
        let addr = B::plus(
            &B::lift(row.w_ptr),
            &B::times(&B::constant(4), &B::lift(row.i)),
        );
        eval_memory_access(
            builder,
            row.shard,
            &clk,
            &addr,
            &row.w_i.prev_value,
            &row.w_i.access,
            row.is_real,
        );
    }

    /// States the identities of the read of the word `back` places before
    /// the word of the row.
    fn eval_read<B: ConstraintBuilder>(
        builder: &mut B,
        row: &ShaExtendCols<B::Var>,
        read: &MemoryReadCols<B::Var>,
        back: u32,
    )
        ensures
            final(builder).state() == read_state::<B>(
                old(builder).state(),
                *row,
                *read,
                back as int,
            ),
    {
        let clk = B::lift(row.clk);
        let places = B::minus(&B::lift(row.i), &B::constant(back));
        let addr = B::plus(&B::lift(row.w_ptr), &B::times(&B::constant(4), &places));
        eval_memory_access(
            builder,
            row.shard,
            &clk,
            &addr,
            &read.access.value,
            &read.access,
            row.is_real,
        );
    }

    /// States the identities of a mixing function.
    fn eval_sigma<B: ConstraintBuilder>(
        builder: &mut B,
        w: Word<B::Var>,
        first: usize,
        rotated_first: FixedRotateRightOperation<B::Var>,
        second: usize,
        rotated_second: FixedRotateRightOperation<B::Var>,
        third: usize,
        shifted: FixedShiftRightOperation<B::Var>,
        intermediate: XorOperation<B::Var>,
        sigma: XorOperation<B::Var>,
        is_real: B::Var,
    )
        ensures
            final(builder).state() == old(builder).state().and(
                sigma_relation::<B>(
                    w,
                    first as int,
                    rotated_first,
                    second as int,
                    rotated_second,
                    third as int,
                    shifted,
                    intermediate,
                    sigma,
                    is_real,
                ),
            ),
    {
        FixedRotateRightOperation::<u32>::eval(builder, w, first, rotated_first, is_real);
        FixedRotateRightOperation::<u32>::eval(builder, w, second, rotated_second, is_real);
        FixedShiftRightOperation::<u32>::eval(builder, w, third, shifted, is_real);
        XorOperation::<u32>::eval(
            builder,
            rotated_first.value,
            rotated_second.value,
            intermediate,
            is_real,
        );
        XorOperation::<u32>::eval(builder, intermediate.value, shifted.value, sigma, is_real);
    }
}

/// Whether round `j` of `event` is one whose row a prover can complete in a
/// field of characteristic `p`: its accesses carry the stamp of the event,
/// each comes after the access it takes from, and the word written is the
/// word of the schedule that follows from the words read.
pub open spec fn round_valid(event: ShaExtendEvent, j: int, p: int) -> bool {
    &&& read_claimable(event.w_i_minus_15_reads[j], event.shard, event.clk as int, p)
    &&& read_claimable(event.w_i_minus_2_reads[j], event.shard, event.clk as int, p)
    &&& read_claimable(event.w_i_minus_16_reads[j], event.shard, event.clk as int, p)
    &&& read_claimable(event.w_i_minus_7_reads[j], event.shard, event.clk as int, p)
    &&& write_claimable(event.w_i_writes[j], event.shard, event.clk as int, p)
    &&& event.w_i_writes[j].value == extended_word(
        event.w_i_minus_16_reads[j].value,
        event.w_i_minus_15_reads[j].value,
        event.w_i_minus_7_reads[j].value,
        event.w_i_minus_2_reads[j].value,
    )
}

/// A mixing function on the evaluator: the columns of its steps satisfy its
/// identities.
proof fn lemma_sigma_holds<const P: u32>(
    w: u32,
    first: int,
    second: int,
    third: int,
    is_real: u32,
)
    requires
        P > 256,
        0 <= first,
        0 <= second,
        0 <= third,
        is_real <= 1,
    ensures
        sigma_relation::<RowEvaluator<P>>(
            word_of(w),
            first,
            FixedRotateRightOperation::witness(w, first),
            second,
            FixedRotateRightOperation::witness(w, second),
            third,
            FixedShiftRightOperation::witness(w, third),
            XorOperation::witness(rotr(w, first), rotr(w, second)),
            XorOperation::witness(rotr(w, first) ^ rotr(w, second), shr(w, third)),
            is_real,
        ),
{
    let p = P as int;
    let r = is_real as int;
    let a = FixedRotateRightOperation::witness(w, first);
    let b = FixedRotateRightOperation::witness(w, second);
    let c = FixedShiftRightOperation::witness(w, third);
    let x = XorOperation::witness(rotr(w, first), rotr(w, second));
    let y = XorOperation::witness(rotr(w, first) ^ rotr(w, second), shr(w, third));
    lemma_word_of(w);
    lemma_evaluator_reads_cells::<P>(word_of(w));
    lemma_evaluator_reads_cells::<P>(a.value);
    lemma_evaluator_reads_cells::<P>(a.shift);
    lemma_evaluator_reads_cells::<P>(a.carry);
    lemma_evaluator_reads_cells::<P>(b.value);
    lemma_evaluator_reads_cells::<P>(b.shift);
    lemma_evaluator_reads_cells::<P>(b.carry);
    lemma_evaluator_reads_cells::<P>(c.value);
    lemma_evaluator_reads_cells::<P>(c.shift);
    lemma_evaluator_reads_cells::<P>(c.carry);
    lemma_evaluator_reads_cells::<P>(x.value);
    lemma_evaluator_reads_cells::<P>(y.value);
    lemma_rotate_witness_satisfies(w, first, r, p);
    lemma_rotate_witness_satisfies(w, second, r, p);
    lemma_shift_witness_satisfies(w, third, r, p);
    lemma_xor_witness_satisfies(rotr(w, first), rotr(w, second), r, p);
    lemma_xor_witness_satisfies(rotr(w, first) ^ rotr(w, second), shr(w, third), r, p);
    lemma_word_of(rotr(w, first) ^ rotr(w, second));
}

/// The identities of the computation hold on the columns of a round whose
/// write is the word that follows from its reads.
proof fn lemma_round_holds<const P: u32>(event: ShaExtendEvent, j: int, row: ShaExtendCols<u32>)
    requires
        P > 256,
        event.w_i_writes[j].value == extended_word(
            event.w_i_minus_16_reads[j].value,
            event.w_i_minus_15_reads[j].value,
            event.w_i_minus_7_reads[j].value,
            event.w_i_minus_2_reads[j].value,
        ),
        row == (ShaExtendCols {
            i: row.i,
            cycle_48: row.cycle_48,
            cycle_48_start: row.cycle_48_start,
            cycle_48_end: row.cycle_48_end,
            ..round_cols(event, j)
        }),
    ensures
        round_relation::<RowEvaluator<P>>(row),
{
    reveal(round_cols);
    let p = P as int;
    let w_15 = event.w_i_minus_15_reads[j].value;
    let w_2 = event.w_i_minus_2_reads[j].value;
    let w_16 = event.w_i_minus_16_reads[j].value;
    let w_7 = event.w_i_minus_7_reads[j].value;
    let s0 = small_sigma_0(w_15);
    let s1 = small_sigma_1(w_2);
    lemma_sigma_holds::<P>(w_15, 7, 18, 3, 1);
    lemma_sigma_holds::<P>(w_2, 17, 19, 10, 1);
    lemma_add4_witness_satisfies(w_16, s0, w_7, s1, 1, p);
    lemma_xor_witness_satisfies(rotr(w_15, 7) ^ rotr(w_15, 18), shr(w_15, 3), 1, p);
    lemma_xor_witness_satisfies(rotr(w_2, 17) ^ rotr(w_2, 19), shr(w_2, 10), 1, p);
    lemma_word_of(w_16);
    lemma_word_of(w_7);
    lemma_word_of(s0);
    lemma_word_of(s1);
    lemma_evaluator_reads_cells::<P>(row.w_i_minus_16.access.value);
    lemma_evaluator_reads_cells::<P>(row.w_i_minus_7.access.value);
    lemma_evaluator_reads_cells::<P>(row.s0.value);
    lemma_evaluator_reads_cells::<P>(row.s1.value);
    lemma_evaluator_reads_cells::<P>(row.s2.value);
    lemma_evaluator_reads_cells::<P>(row.s2.is_carry_0);
    lemma_evaluator_reads_cells::<P>(row.s2.is_carry_1);
    lemma_evaluator_reads_cells::<P>(row.s2.is_carry_2);
    lemma_evaluator_reads_cells::<P>(row.s2.is_carry_3);
    lemma_evaluator_reads_cells::<P>(row.s2.carry);
    lemma_evaluator_reads_cells::<P>(row.w_i.access.value);
    lemma_words_agree(cells(row.s2.value), p);
}

/// Witness and constraints agree on the rows of a round: the evaluator finds
/// every identity of the row of a valid round satisfied.
pub proof fn lemma_round_row_satisfies<const P: u32>(
    event: ShaExtendEvent,
    j: int,
    row: ShaExtendCols<u32>,
    before: BuilderState,
)
    requires
        P > 256,
        round_valid(event, j, P as int),
        row == (ShaExtendCols {
            i: row.i,
            cycle_48: row.cycle_48,
            cycle_48_start: row.cycle_48_start,
            cycle_48_end: row.cycle_48_end,
            ..round_cols(event, j)
        }),
    ensures
        round_state::<RowEvaluator<P>>(before, row).satisfied == before.satisfied,
{
    lemma_round_holds::<P>(event, j, row);
    assert(row.is_real == 1 && row.shard == event.shard && row.clk == event.clk
        && row.w_i_minus_15 == MemoryReadCols::witness(event.w_i_minus_15_reads[j])
        && row.w_i_minus_2 == MemoryReadCols::witness(event.w_i_minus_2_reads[j])
        && row.w_i_minus_16 == MemoryReadCols::witness(event.w_i_minus_16_reads[j])
        && row.w_i_minus_7 == MemoryReadCols::witness(event.w_i_minus_7_reads[j]) && row.w_i
        == MemoryWriteCols::witness(event.w_i_writes[j])) by {
        reveal(round_cols);
    }
    lemma_read_holds::<P>(event.w_i_minus_15_reads[j], event.shard, event.clk);
    lemma_read_holds::<P>(event.w_i_minus_2_reads[j], event.shard, event.clk);
    lemma_read_holds::<P>(event.w_i_minus_16_reads[j], event.shard, event.clk);
    lemma_read_holds::<P>(event.w_i_minus_7_reads[j], event.shard, event.clk);
    let w = event.w_i_writes[j];
    lemma_access_witness_satisfies(
        w.value,
        w.shard,
        w.timestamp,
        w.prev_shard,
        w.prev_timestamp,
        1,
        P as int,
    );
}

/// The identities of the access of a claimable read hold for its columns.
proof fn lemma_read_holds<const P: u32>(record: MemoryReadRecord, shard: u32, clk: u32)
    requires
        P > 0,
        read_claimable(record, shard, clk as int, P as int),
    ensures
        crate::memory::access_relation(
            shard as int,
            clk as int,
            MemoryReadCols::witness(record).access.prev_shard as int,
            MemoryReadCols::witness(record).access.prev_clk as int,
            MemoryReadCols::witness(record).access.use_clk_comparison as int,
            MemoryReadCols::witness(record).access.prev_time_value as int,
            MemoryReadCols::witness(record).access.current_time_value as int,
            1,
            P as int,
        ),
{
    lemma_access_witness_satisfies(
        record.value,
        record.shard,
        record.timestamp,
        record.prev_shard,
        record.prev_timestamp,
        1,
        P as int,
    );
}

/// Witness and constraints agree on the padding rows: the evaluator finds
/// every identity of a row of zeros with any flags satisfied.
pub proof fn lemma_padding_row_satisfies<const P: u32>(
    row: ShaExtendCols<u32>,
    before: BuilderState,
)
    requires
        P > 256,
        row == (ShaExtendCols {
            i: row.i,
            cycle_48: row.cycle_48,
            cycle_48_start: row.cycle_48_start,
            cycle_48_end: row.cycle_48_end,
            ..ShaExtendCols::zero()
        }),
    ensures
        round_state::<RowEvaluator<P>>(before, row).satisfied == before.satisfied,
{
    let p = P as int;
    assert(0u32 ^ 0u32 == 0u32) by (bit_vector);
    crate::operations::rotate_right::lemma_rotr_zero(7);
    crate::operations::rotate_right::lemma_rotr_zero(18);
    crate::operations::rotate_right::lemma_rotr_zero(17);
    crate::operations::rotate_right::lemma_rotr_zero(19);
    crate::operations::shift_right::lemma_shr_zero(3);
    crate::operations::shift_right::lemma_shr_zero(10);
    lemma_sigma_holds::<P>(0, 7, 18, 3, 0);
    lemma_sigma_holds::<P>(0, 17, 19, 10, 0);
    lemma_add4_unconstrained(
        word_values::<RowEvaluator<P>>(row.w_i_minus_16.access.value),
        word_values::<RowEvaluator<P>>(row.s0.value),
        word_values::<RowEvaluator<P>>(row.w_i_minus_7.access.value),
        word_values::<RowEvaluator<P>>(row.s1.value),
        word_values::<RowEvaluator<P>>(row.s2.value),
        word_values::<RowEvaluator<P>>(row.s2.is_carry_0),
        word_values::<RowEvaluator<P>>(row.s2.is_carry_1),
        word_values::<RowEvaluator<P>>(row.s2.is_carry_2),
        word_values::<RowEvaluator<P>>(row.s2.is_carry_3),
        word_values::<RowEvaluator<P>>(row.s2.carry),
        p,
    );
    lemma_words_agree(word_values::<RowEvaluator<P>>(row.s2.value), p);
    lemma_access_unconstrained(0, 0, access_values::<RowEvaluator<P>>(row.w_i_minus_15.access), p);
    lemma_access_unconstrained(0, 0, access_values::<RowEvaluator<P>>(row.w_i_minus_2.access), p);
    lemma_access_unconstrained(0, 0, access_values::<RowEvaluator<P>>(row.w_i_minus_16.access), p);
    lemma_access_unconstrained(0, 0, access_values::<RowEvaluator<P>>(row.w_i_minus_7.access), p);
    lemma_access_unconstrained(0, 0, access_values::<RowEvaluator<P>>(row.w_i.access), p);
}

/// The identities of a mixing function are sound: columns that satisfy them
/// on a real row hold in `sigma` the exclusive or of the two rotations and
/// the shift of the word that the lanes `w` spell.
proof fn lemma_sigma_sound(
    w: Seq<int>,
    first: int,
    first_shift: Seq<int>,
    first_carry: Seq<int>,
    first_value: Seq<int>,
    second: int,
    second_shift: Seq<int>,
    second_carry: Seq<int>,
    second_value: Seq<int>,
    third: int,
    third_shift: Seq<int>,
    third_carry: Seq<int>,
    third_value: Seq<int>,
    intermediate: Seq<int>,
    sigma: Seq<int>,
    p: int,
)
    requires
        p > 512,
        0 <= first && 0 <= second && 0 <= third,
        w.len() == 4 && first_shift.len() == 4 && first_carry.len() == 4 && first_value.len()
            == 4,
        second_shift.len() == 4 && second_carry.len() == 4 && second_value.len() == 4,
        third_shift.len() == 4 && third_carry.len() == 4 && third_value.len() == 4,
        intermediate.len() == 4 && sigma.len() == 4,
        canonical(w, p) && canonical(first_shift, p) && canonical(first_carry, p) && canonical(
            first_value,
            p,
        ),
        canonical(second_shift, p) && canonical(second_carry, p) && canonical(second_value, p),
        canonical(third_shift, p) && canonical(third_carry, p) && canonical(third_value, p),
        canonical(intermediate, p) && canonical(sigma, p),
        rotate_relation(w, first, first_shift, first_carry, first_value, 1, p),
        rotate_relation(w, second, second_shift, second_carry, second_value, 1, p),
        shift_relation(w, third, third_shift, third_carry, third_value, 1, p),
        xor_relation(first_value, second_value, intermediate, 1, p),
        xor_relation(intermediate, third_value, sigma, 1, p),
    ensures
        all_bytes(w),
        all_bytes(sigma),
        word_from(sigma) == ((rotr(word_from(w) as u32, first) ^ rotr(
            word_from(w) as u32,
            second,
        )) ^ shr(word_from(w) as u32, third)),
{
    lemma_rotate_sound(w, first, first_shift, first_carry, first_value, p);
    lemma_rotate_sound(w, second, second_shift, second_carry, second_value, p);
    lemma_shift_sound(w, third, third_shift, third_carry, third_value, p);
    lemma_xor_sound(first_value, second_value, intermediate, p);
    lemma_xor_sound(intermediate, third_value, sigma, p);
}

/// Whether every cell of the two rotations, the shift and the two exclusive
/// ors of a mixing function denotes a residue of the field.
pub open spec fn sigma_canonical<B: ConstraintBuilder>(
    rotated_first: FixedRotateRightOperation<B::Var>,
    rotated_second: FixedRotateRightOperation<B::Var>,
    shifted: FixedShiftRightOperation<B::Var>,
    intermediate: XorOperation<B::Var>,
    sigma: XorOperation<B::Var>,
) -> bool {
    let p = B::modulus();
    &&& canonical(word_values::<B>(rotated_first.shift), p)
    &&& canonical(word_values::<B>(rotated_first.carry), p)
    &&& canonical(word_values::<B>(rotated_first.value), p)
    &&& canonical(word_values::<B>(rotated_second.shift), p)
    &&& canonical(word_values::<B>(rotated_second.carry), p)
    &&& canonical(word_values::<B>(rotated_second.value), p)
    &&& canonical(word_values::<B>(shifted.shift), p)
    &&& canonical(word_values::<B>(shifted.carry), p)
    &&& canonical(word_values::<B>(shifted.value), p)
    &&& canonical(word_values::<B>(intermediate.value), p)
    &&& canonical(word_values::<B>(sigma.value), p)
}

/// Whether every cell of the computation of a row denotes a residue of the
/// field.
pub open spec fn round_canonical<B: ConstraintBuilder>(row: ShaExtendCols<B::Var>) -> bool {
    let p = B::modulus();
    &&& canonical(word_values::<B>(row.w_i_minus_15.access.value), p)
    &&& canonical(word_values::<B>(row.w_i_minus_2.access.value), p)
    &&& canonical(word_values::<B>(row.w_i_minus_16.access.value), p)
    &&& canonical(word_values::<B>(row.w_i_minus_7.access.value), p)
    &&& canonical(word_values::<B>(row.w_i.access.value), p)
    &&& sigma_canonical::<B>(
        row.w_i_minus_15_rr_7,
        row.w_i_minus_15_rr_18,
        row.w_i_minus_15_rs_3,
        row.s0_intermediate,
        row.s0,
    )
    &&& sigma_canonical::<B>(
        row.w_i_minus_2_rr_17,
        row.w_i_minus_2_rr_19,
        row.w_i_minus_2_rs_10,
        row.s1_intermediate,
        row.s1,
    )
    &&& canonical(word_values::<B>(row.s2.value), p)
    &&& canonical(word_values::<B>(row.s2.is_carry_0), p)
    &&& canonical(word_values::<B>(row.s2.is_carry_1), p)
    &&& canonical(word_values::<B>(row.s2.is_carry_2), p)
    &&& canonical(word_values::<B>(row.s2.is_carry_3), p)
    &&& canonical(word_values::<B>(row.s2.carry), p)
}

/// The identities of the computation of a row are sound: in a field of
/// more than two thousand and forty-eight elements, columns that satisfy
/// them on a real row hold bytes in the four words read, and in the word
/// written the word of the schedule that follows from the words that those
/// bytes spell.
pub proof fn lemma_round_sound<B: ConstraintBuilder>(row: ShaExtendCols<B::Var>)
    requires
        is_field(B::modulus()),
        B::modulus() > 2048,
        B::var_value(row.is_real) == 1,
        round_canonical::<B>(row),
        round_relation::<B>(row),
    ensures
        all_bytes(word_values::<B>(row.w_i_minus_16.access.value)),
        all_bytes(word_values::<B>(row.w_i_minus_15.access.value)),
        all_bytes(word_values::<B>(row.w_i_minus_7.access.value)),
        all_bytes(word_values::<B>(row.w_i_minus_2.access.value)),
        word_values::<B>(row.w_i.access.value) == lanes(
            extended_word(
                word_from(word_values::<B>(row.w_i_minus_16.access.value)) as u32,
                word_from(word_values::<B>(row.w_i_minus_15.access.value)) as u32,
                word_from(word_values::<B>(row.w_i_minus_7.access.value)) as u32,
                word_from(word_values::<B>(row.w_i_minus_2.access.value)) as u32,
            ),
        ),
{
    let p = B::modulus();
    let w_15 = word_values::<B>(row.w_i_minus_15.access.value);
    let w_2 = word_values::<B>(row.w_i_minus_2.access.value);
    let w_16 = word_values::<B>(row.w_i_minus_16.access.value);
    let w_7 = word_values::<B>(row.w_i_minus_7.access.value);
    let s0 = word_values::<B>(row.s0.value);
    let s1 = word_values::<B>(row.s1.value);
    let s2 = word_values::<B>(row.s2.value);
    lemma_sigma_sound(
        w_15,
        7,
        word_values::<B>(row.w_i_minus_15_rr_7.shift),
        word_values::<B>(row.w_i_minus_15_rr_7.carry),
        word_values::<B>(row.w_i_minus_15_rr_7.value),
        18,
        word_values::<B>(row.w_i_minus_15_rr_18.shift),
        word_values::<B>(row.w_i_minus_15_rr_18.carry),
        word_values::<B>(row.w_i_minus_15_rr_18.value),
        3,
        word_values::<B>(row.w_i_minus_15_rs_3.shift),
        word_values::<B>(row.w_i_minus_15_rs_3.carry),
        word_values::<B>(row.w_i_minus_15_rs_3.value),
        word_values::<B>(row.s0_intermediate.value),
        s0,
        p,
    );
    lemma_sigma_sound(
        w_2,
        17,
        word_values::<B>(row.w_i_minus_2_rr_17.shift),
        word_values::<B>(row.w_i_minus_2_rr_17.carry),
        word_values::<B>(row.w_i_minus_2_rr_17.value),
        19,
        word_values::<B>(row.w_i_minus_2_rr_19.shift),
        word_values::<B>(row.w_i_minus_2_rr_19.carry),
        word_values::<B>(row.w_i_minus_2_rr_19.value),
        10,
        word_values::<B>(row.w_i_minus_2_rs_10.shift),
        word_values::<B>(row.w_i_minus_2_rs_10.carry),
        word_values::<B>(row.w_i_minus_2_rs_10.value),
        word_values::<B>(row.s1_intermediate.value),
        s1,
        p,
    );
    lemma_add4_sound(
        w_16,
        s0,
        w_7,
        s1,
        s2,
        word_values::<B>(row.s2.is_carry_0),
        word_values::<B>(row.s2.is_carry_1),
        word_values::<B>(row.s2.is_carry_2),
        word_values::<B>(row.s2.is_carry_3),
        word_values::<B>(row.s2.carry),
        p,
    );
    let word = extended_word(
        word_from(w_16) as u32,
        word_from(w_15) as u32,
        word_from(w_7) as u32,
        word_from(w_2) as u32,
    );
    reveal(canonical);
    reveal(all_bytes);
    lemma_lanes_of_bytes(w_16);
    lemma_lanes_of_bytes(w_7);
    lemma_lanes_of_bytes(s0);
    lemma_lanes_of_bytes(s1);
    lemma_lanes_of_bytes(s2);
    assert(word_from(s2) == word);
    assert(s2 == lanes(word));
    let written = word_values::<B>(row.w_i.access.value);
    assert forall|i: int| 0 <= i < 4 implies written[i] == s2[i] by {
        assert(0 <= written[i] < p);
        assert(0 <= s2[i] < 256);
        lemma_small_vanishes(written[i] - s2[i], p);
    }
    assert(written =~= s2);
}

/// Witness and constraints agree on every row of a trace: where the rounds
/// of the events are valid, the evaluator finds every identity of every row,
/// the padding rows too, satisfied.
pub proof fn lemma_trace_satisfies<const P: u32>(
    rows: Seq<ShaExtendCols<u32>>,
    events: Seq<ShaExtendEvent>,
    r: int,
    before: BuilderState,
)
    requires
        P > 256,
        super::trace::is_trace(rows, events),
        0 <= r < rows.len(),
        forall|e: int, j: int|
            0 <= e < events.len() && 0 <= j < 48 ==> #[trigger] round_valid(
                events[e],
                j,
                P as int,
            ),
    ensures
        round_state::<RowEvaluator<P>>(before, rows[r]).satisfied == before.satisfied,
{
    assert(is_trace_row(rows[r], events, r));
    if r < 48 * events.len() {
        assert(round_valid(events[r / 48], r % 48, P as int));
        lemma_round_row_satisfies::<P>(events[r / 48], r % 48, rows[r], before);
    } else {
        lemma_padding_row_satisfies::<P>(rows[r], before);
    }
}

} // verus!
