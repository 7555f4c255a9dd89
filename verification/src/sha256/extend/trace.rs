//! Generation of the trace of the schedule extension.

use vstd::prelude::*;
use crate::bytes::ByteLookupEvent;
use crate::memory::{MemoryReadCols, MemoryWriteCols, access_event};
use crate::operations::add4::{Add4Operation, add4_events};
use crate::operations::rotate_right::{FixedRotateRightOperation, rotate_events, rotr};
use crate::operations::shift_right::{FixedShiftRightOperation, shift_events, shr};
use crate::operations::xor::{XorOperation, xor_events};
use crate::record::{ExecutionRecord, FieldEvent};
use crate::trace::{
    padded_count, padded_row_count, row_major, matrix_values, matrix_width, lemma_padded_count,
    is_power_of_two,
};
use super::{
    ShaExtendChip, ShaExtendCols, ShaExtendEvent, NUM_SHA_EXTEND_COLS, small_sigma_0,
    small_sigma_1, extended_word,
};
use p3_matrix::dense::RowMajorMatrix;

verus! {

/// The row of round `j` of `event`, but for its flags.
#[verifier::opaque]
pub open spec fn round_cols(event: ShaExtendEvent, j: int) -> ShaExtendCols<u32> {
    let w_15 = event.w_i_minus_15_reads[j].value;
    let w_2 = event.w_i_minus_2_reads[j].value;
    let w_16 = event.w_i_minus_16_reads[j].value;
    let w_7 = event.w_i_minus_7_reads[j].value;
    ShaExtendCols {
        shard: event.shard,
        clk: event.clk,
        w_ptr: event.w_ptr,
        w_i_minus_15: MemoryReadCols::witness(event.w_i_minus_15_reads[j]),
        w_i_minus_15_rr_7: FixedRotateRightOperation::witness(w_15, 7),
        w_i_minus_15_rr_18: FixedRotateRightOperation::witness(w_15, 18),
        w_i_minus_15_rs_3: FixedShiftRightOperation::witness(w_15, 3),
        s0_intermediate: XorOperation::witness(rotr(w_15, 7), rotr(w_15, 18)),
        s0: XorOperation::witness(rotr(w_15, 7) ^ rotr(w_15, 18), shr(w_15, 3)),
        w_i_minus_2: MemoryReadCols::witness(event.w_i_minus_2_reads[j]),
        w_i_minus_2_rr_17: FixedRotateRightOperation::witness(w_2, 17),
        w_i_minus_2_rr_19: FixedRotateRightOperation::witness(w_2, 19),
        w_i_minus_2_rs_10: FixedShiftRightOperation::witness(w_2, 10),
        s1_intermediate: XorOperation::witness(rotr(w_2, 17), rotr(w_2, 19)),
        s1: XorOperation::witness(rotr(w_2, 17) ^ rotr(w_2, 19), shr(w_2, 10)),
        w_i_minus_16: MemoryReadCols::witness(event.w_i_minus_16_reads[j]),
        w_i_minus_7: MemoryReadCols::witness(event.w_i_minus_7_reads[j]),
        s2: Add4Operation::witness(w_16, small_sigma_0(w_15), w_7, small_sigma_1(w_2)),
        w_i: MemoryWriteCols::witness(event.w_i_writes[j]),
        is_real: 1,
        ..ShaExtendCols::zero()
    }
}

/// Whether `cols` is row `row` of the trace of `events`: the columns of its
/// round with the flags of the row, or after the rounds of all events zeros
/// with the flags of the row.
pub open spec fn is_trace_row(
    cols: ShaExtendCols<u32>,
    events: Seq<ShaExtendEvent>,
    row: int,
) -> bool {
    let rest = if row < 48 * events.len() {
        round_cols(events[row / 48], row % 48)
    } else {
        ShaExtendCols::zero()
    };
    &&& cols.has_flags(row)
    &&& cols == (ShaExtendCols {
        i: cols.i,
        cycle_48: cols.cycle_48,
        cycle_48_start: cols.cycle_48_start,
        cycle_48_end: cols.cycle_48_end,
        ..rest
    })
}

/// The byte lookups that round `j` of `event` leaves, in the order of its
/// steps.
#[verifier::opaque]
pub open spec fn round_lookups(event: ShaExtendEvent, j: int) -> Seq<ByteLookupEvent> {
    let w_15 = event.w_i_minus_15_reads[j].value;
    let w_2 = event.w_i_minus_2_reads[j].value;
    let w_16 = event.w_i_minus_16_reads[j].value;
    let w_7 = event.w_i_minus_7_reads[j].value;
    rotate_events(w_15, 7) + rotate_events(w_15, 18) + shift_events(w_15, 3) + xor_events(
        rotr(w_15, 7),
        rotr(w_15, 18),
    ) + xor_events(rotr(w_15, 7) ^ rotr(w_15, 18), shr(w_15, 3)) + rotate_events(w_2, 17)
        + rotate_events(w_2, 19) + shift_events(w_2, 10) + xor_events(
        rotr(w_2, 17),
        rotr(w_2, 19),
    ) + xor_events(rotr(w_2, 17) ^ rotr(w_2, 19), shr(w_2, 10)) + add4_events(
        w_16,
        small_sigma_0(w_15),
        w_7,
        small_sigma_1(w_2),
    )
}

/// The comparison that the read `record` leaves.
pub open spec fn read_comparison(record: crate::memory::MemoryReadRecord) -> FieldEvent {
    access_event(record.shard, record.timestamp, record.prev_shard, record.prev_timestamp)
}

/// The comparisons that the accesses of round `j` of `event` leave.
#[verifier::opaque]
pub open spec fn round_comparisons(event: ShaExtendEvent, j: int) -> Seq<FieldEvent> {
    seq![
        read_comparison(event.w_i_minus_15_reads[j]),
        read_comparison(event.w_i_minus_2_reads[j]),
        read_comparison(event.w_i_minus_16_reads[j]),
        read_comparison(event.w_i_minus_7_reads[j]),
        access_event(
            event.w_i_writes[j].shard,
            event.w_i_writes[j].timestamp,
            event.w_i_writes[j].prev_shard,
            event.w_i_writes[j].prev_timestamp,
        ),
    ]
}

/// The byte lookups that the first `rows` rounds of `events` leave.
pub open spec fn trace_lookups(events: Seq<ShaExtendEvent>, rows: int) -> Seq<ByteLookupEvent>
    decreases rows,
{
    if rows <= 0 {
        Seq::empty()
    } else {
        trace_lookups(events, rows - 1) + round_lookups(
            events[(rows - 1) / 48],
            (rows - 1) % 48,
        )
    }
}

/// The comparisons that the first `rows` rounds of `events` leave.
pub open spec fn trace_comparisons(events: Seq<ShaExtendEvent>, rows: int) -> Seq<FieldEvent>
    decreases rows,
{
    if rows <= 0 {
        Seq::empty()
    } else {
        trace_comparisons(events, rows - 1) + round_comparisons(
            events[(rows - 1) / 48],
            (rows - 1) % 48,
        )
    }
}

/// The cells of the first `n` of `rows`, row after row.
pub open spec fn flat_rows(rows: Seq<ShaExtendCols<u32>>, n: int) -> Seq<u32>
    decreases n,
{
    if n <= 0 {
        Seq::empty()
    } else {
        flat_rows(rows, n - 1) + rows[n - 1].flat()
    }
}

/// Whether `rows` is the trace of `events`: forty-eight rows for each event
/// and zero rows after them up to the padded count, each with the flags of
/// its place.
pub open spec fn is_trace(rows: Seq<ShaExtendCols<u32>>, events: Seq<ShaExtendEvent>) -> bool {
    &&& rows.len() == padded_count(48 * events.len())
    &&& forall|r: int| 0 <= r < rows.len() ==> is_trace_row(#[trigger] rows[r], events, r)
}

/// What a round computes: the sum columns of round `j` of `event` hold the
/// word of the schedule that follows from the four words that the round
/// reads.
pub proof fn lemma_round_word(event: ShaExtendEvent, j: int)
    ensures
        round_cols(event, j).s2.value == crate::word::word_of(
            extended_word(
                event.w_i_minus_16_reads[j].value,
                event.w_i_minus_15_reads[j].value,
                event.w_i_minus_7_reads[j].value,
                event.w_i_minus_2_reads[j].value,
            ),
        ),
{
    reveal(round_cols);
    reveal(Add4Operation::witness);
}

/// The shape of a trace: the number of its rows is a power of two, at least
/// four and at least the number of rounds; the flag `is_real` is one on the
/// rows of the rounds, which come first, and zero on every row after them.
pub proof fn lemma_trace_shape(rows: Seq<ShaExtendCols<u32>>, events: Seq<ShaExtendEvent>)
    requires
        is_trace(rows, events),
    ensures
        is_power_of_two(rows.len()),
        rows.len() >= 4,
        rows.len() >= 48 * events.len(),
        forall|r: int| 0 <= r < 48 * events.len() ==> (#[trigger] rows[r]).is_real == 1,
        forall|r: int| 48 * events.len() <= r < rows.len() ==> (#[trigger] rows[r]).is_real == 0,
{
    lemma_padded_count(48 * events.len());
    reveal(round_cols);
    assert forall|r: int| 0 <= r < rows.len() implies (#[trigger] rows[r]).is_real == (if r < 48
        * events.len() {
        1u32
    } else {
        0u32
    }) by {
        assert(is_trace_row(rows[r], events, r));
    }
}

impl ShaExtendChip {
    /// The name of the chip.
    pub fn name(&self) -> (name: String)
        ensures
            name@ == "ShaExtend"@,
    {
        "ShaExtend".to_owned()
    }

    /// The number of columns of a row.
    pub fn width(&self) -> (w: usize)
        ensures
            w == NUM_SHA_EXTEND_COLS,
    {
        NUM_SHA_EXTEND_COLS
    }

    /// The columns of round `j` of `event` with the flags of row `row`; the
    /// byte lookups of the round are appended to `output` and the
    /// comparisons of its accesses to `new_field_events`.
    fn round(
        event: &ShaExtendEvent,
        j: usize,
        row: usize,
        output: &mut ExecutionRecord,
        new_field_events: &mut Vec<FieldEvent>,
    ) -> (cols: ShaExtendCols<u32>)
        requires
            j < 48,
        ensures
            cols.has_flags(row as int),
            cols == (ShaExtendCols {
                i: cols.i,
                cycle_48: cols.cycle_48,
                cycle_48_start: cols.cycle_48_start,
                cycle_48_end: cols.cycle_48_end,
                ..round_cols(*event, j as int)
            }),
            final(output).byte_lookup_events@ == old(output).byte_lookup_events@ + round_lookups(
                *event,
                j as int,
            ),
            final(output).same_but_lookups(*old(output)),
            final(new_field_events)@ == old(new_field_events)@ + round_comparisons(
                *event,
                j as int,
            ),
    {
        let mut cols = ShaExtendCols::zeroed();
        cols.populate_flags(row);
        cols.shard = event.shard;
        cols.clk = event.clk;
        cols.w_ptr = event.w_ptr;

        cols.w_i_minus_15.populate(event.w_i_minus_15_reads[j], new_field_events);
        cols.w_i_minus_2.populate(event.w_i_minus_2_reads[j], new_field_events);
        cols.w_i_minus_16.populate(event.w_i_minus_16_reads[j], new_field_events);
        cols.w_i_minus_7.populate(event.w_i_minus_7_reads[j], new_field_events);

        let ghost before = output.byte_lookup_events@;
        let ghost mut emitted: Seq<ByteLookupEvent> = Seq::empty();
        assert(output.byte_lookup_events@ =~= before + emitted);

        // Compute `s0`.
        let w_i_minus_15: u32 = event.w_i_minus_15_reads[j].value;
        let w_i_minus_15_rr_7: u32 = cols.w_i_minus_15_rr_7.populate(output, w_i_minus_15, 7);
        proof {
            assert(output.byte_lookup_events@ =~= before + (emitted + rotate_events(
                w_i_minus_15,
                7,
            )));
            emitted = emitted + rotate_events(w_i_minus_15, 7);
        }
        let w_i_minus_15_rr_18: u32 = cols.w_i_minus_15_rr_18.populate(output, w_i_minus_15, 18);
        proof {
            assert(output.byte_lookup_events@ =~= before + (emitted + rotate_events(
                w_i_minus_15,
                18,
            )));
            emitted = emitted + rotate_events(w_i_minus_15, 18);
        }
        let w_i_minus_15_rs_3: u32 = cols.w_i_minus_15_rs_3.populate(output, w_i_minus_15, 3);
        proof {
            assert(output.byte_lookup_events@ =~= before + (emitted + shift_events(
                w_i_minus_15,
                3,
            )));
            emitted = emitted + shift_events(w_i_minus_15, 3);
        }
        let s0_intermediate: u32 = cols.s0_intermediate.populate(
            output,
            w_i_minus_15_rr_7,
            w_i_minus_15_rr_18,
        );
        proof {
            assert(output.byte_lookup_events@ =~= before + (emitted + xor_events(
                w_i_minus_15_rr_7,
                w_i_minus_15_rr_18,
            )));
            emitted = emitted + xor_events(w_i_minus_15_rr_7, w_i_minus_15_rr_18);
        }
        let s0: u32 = cols.s0.populate(output, s0_intermediate, w_i_minus_15_rs_3);
        proof {
            assert(output.byte_lookup_events@ =~= before + (emitted + xor_events(
                s0_intermediate,
                w_i_minus_15_rs_3,
            )));
            emitted = emitted + xor_events(s0_intermediate, w_i_minus_15_rs_3);
        }

        // Compute `s1`.
        let w_i_minus_2: u32 = event.w_i_minus_2_reads[j].value;
        let w_i_minus_2_rr_17: u32 = cols.w_i_minus_2_rr_17.populate(output, w_i_minus_2, 17);
        proof {
            assert(output.byte_lookup_events@ =~= before + (emitted + rotate_events(
                w_i_minus_2,
                17,
            )));
            emitted = emitted + rotate_events(w_i_minus_2, 17);
        }
        let w_i_minus_2_rr_19: u32 = cols.w_i_minus_2_rr_19.populate(output, w_i_minus_2, 19);
        proof {
            assert(output.byte_lookup_events@ =~= before + (emitted + rotate_events(
                w_i_minus_2,
                19,
            )));
            emitted = emitted + rotate_events(w_i_minus_2, 19);
        }
        let w_i_minus_2_rs_10: u32 = cols.w_i_minus_2_rs_10.populate(output, w_i_minus_2, 10);
        proof {
            assert(output.byte_lookup_events@ =~= before + (emitted + shift_events(
                w_i_minus_2,
                10,
            )));
            emitted = emitted + shift_events(w_i_minus_2, 10);
        }
        let s1_intermediate: u32 = cols.s1_intermediate.populate(
            output,
            w_i_minus_2_rr_17,
            w_i_minus_2_rr_19,
        );
        proof {
            assert(output.byte_lookup_events@ =~= before + (emitted + xor_events(
                w_i_minus_2_rr_17,
                w_i_minus_2_rr_19,
            )));
            emitted = emitted + xor_events(w_i_minus_2_rr_17, w_i_minus_2_rr_19);
        }
        let s1: u32 = cols.s1.populate(output, s1_intermediate, w_i_minus_2_rs_10);
        proof {
            assert(output.byte_lookup_events@ =~= before + (emitted + xor_events(
                s1_intermediate,
                w_i_minus_2_rs_10,
            )));
            emitted = emitted + xor_events(s1_intermediate, w_i_minus_2_rs_10);
        }

        // Compute `s2`.
        let w_i_minus_7: u32 = event.w_i_minus_7_reads[j].value;
        let w_i_minus_16: u32 = event.w_i_minus_16_reads[j].value;
        cols.s2.populate(output, w_i_minus_16, s0, w_i_minus_7, s1);
        proof {
            assert(output.byte_lookup_events@ =~= before + (emitted + add4_events(
                w_i_minus_16,
                s0,
                w_i_minus_7,
                s1,
            )));
            emitted = emitted + add4_events(w_i_minus_16, s0, w_i_minus_7, s1);
        }

        cols.w_i.populate(event.w_i_writes[j], new_field_events);
        cols.is_real = 1;
        proof {
            reveal(round_cols);
            reveal(round_lookups);
            reveal(round_comparisons);
            assert(emitted =~= round_lookups(*event, j as int));
            assert(new_field_events@ =~= old(new_field_events)@ + round_comparisons(
                *event,
                j as int,
            ));
        }
        cols
    }

    /// Generates the trace of the events in `input`: forty-eight rows for
    /// each event and zero rows up to the padded count, each with the flags
    /// of its place, laid out row by row; and appends to `output` the byte
    /// lookups of the rounds and the comparisons of their accesses.
    pub fn generate_trace(&self, input: &ExecutionRecord, output: &mut ExecutionRecord) -> (trace:
        RowMajorMatrix<u32>)
        requires
            input.sha_extend_events.len() <= 0x1_0000,
        ensures
            matrix_width(trace) == NUM_SHA_EXTEND_COLS,
            exists|rows: Seq<ShaExtendCols<u32>>|
                is_trace(rows, input.sha_extend_events@) && matrix_values(trace) == flat_rows(
                    rows,
                    rows.len() as int,
                ),
            final(output).byte_lookup_events@ == old(output).byte_lookup_events@ + trace_lookups(
                input.sha_extend_events@,
                48 * input.sha_extend_events.len(),
            ),
            final(output).field_events@ == old(output).field_events@ + trace_comparisons(
                input.sha_extend_events@,
                48 * input.sha_extend_events.len(),
            ),
            final(output).sha_extend_events@ == old(output).sha_extend_events@,
            final(output).weierstrass_add_events@ == old(output).weierstrass_add_events@,
    {
        let n: usize = input.sha_extend_events.len();
        let ghost events = input.sha_extend_events@;
        let mut rows: Vec<ShaExtendCols<u32>> = Vec::new();
        let mut new_field_events: Vec<FieldEvent> = Vec::new();
        let mut i: usize = 0;
        while i < n
            invariant
                i <= n,
                n == input.sha_extend_events.len(),
                n <= 0x1_0000,
                events == input.sha_extend_events@,
                rows.len() == 48 * i,
                forall|r: int| 0 <= r < 48 * i ==> is_trace_row(#[trigger] rows[r], events, r),
                output.byte_lookup_events@ == old(output).byte_lookup_events@ + trace_lookups(
                    events,
                    48 * i,
                ),
                output.same_but_lookups(*old(output)),
                new_field_events@ == trace_comparisons(events, 48 * i),
            decreases n - i,
        {
            let event = &input.sha_extend_events[i];
            let mut j: usize = 0;
            while j < 48
                invariant
                    j <= 48,
                    i < n,
                    n == input.sha_extend_events.len(),
                    n <= 0x1_0000,
                    events == input.sha_extend_events@,
                    *event == events[i as int],
                    rows.len() == 48 * i + j,
                    forall|r: int|
                        0 <= r < 48 * i + j ==> is_trace_row(#[trigger] rows[r], events, r),
                    output.byte_lookup_events@ == old(output).byte_lookup_events@ + trace_lookups(
                        events,
                        48 * i + j,
                    ),
                    output.same_but_lookups(*old(output)),
                    new_field_events@ == trace_comparisons(events, 48 * i + j),
                decreases 48 - j,
            {
                let ghost before_rows = rows@;
                let row = Self::round(event, j, 48 * i + j, output, &mut new_field_events);
                rows.push(row);
                proof {
                    let r = 48 * i + j;
                    assert(r / 48 == i && r % 48 == j);
                    assert(is_trace_row(row, events, r as int));
                    assert forall|k: int| 0 <= k < r + 1 implies is_trace_row(
                        #[trigger] rows[k],
                        events,
                        k,
                    ) by {
                        if k < r {
                            assert(rows[k] == before_rows[k]);
                        }
                    }
                    assert(output.byte_lookup_events@ =~= old(output).byte_lookup_events@
                        + trace_lookups(events, r + 1));
                }
                j += 1;
            }
            i += 1;
        }
        output.add_field_events(&new_field_events);

        let nb_rows: usize = rows.len();
        let padded_nb_rows: usize = padded_row_count(nb_rows);
        proof {
            lemma_padded_count(nb_rows as nat);
        }
        let mut k: usize = nb_rows;
        while k < padded_nb_rows
            invariant
                nb_rows <= k <= padded_nb_rows,
                nb_rows == 48 * n,
                n == events.len(),
                rows.len() == k,
                forall|r: int| 0 <= r < k ==> is_trace_row(#[trigger] rows[r], events, r),
            decreases padded_nb_rows - k,
        {
            let ghost before_rows = rows@;
            let mut row = ShaExtendCols::zeroed();
            row.populate_flags(k);
            rows.push(row);
            proof {
                assert forall|r: int| 0 <= r < k + 1 implies is_trace_row(
                    #[trigger] rows[r],
                    events,
                    r,
                ) by {
                    if r < k {
                        assert(rows[r] == before_rows[r]);
                    }
                }
            }
            k += 1;
        }

        // Lay the rows out one after the other.
        let mut values: Vec<u32> = Vec::new();
        let mut r: usize = 0;
        while r < padded_nb_rows
            invariant
                r <= padded_nb_rows,
                padded_nb_rows == rows.len(),
                padded_nb_rows <= 0x80_0000,
                values@ == flat_rows(rows@, r as int),
                values.len() == r * NUM_SHA_EXTEND_COLS,
            decreases padded_nb_rows - r,
        {
            rows[r].append_to(&mut values);
            r += 1;
        }
        proof {
            vstd::arithmetic::div_mod::lemma_mod_multiples_basic(
                padded_nb_rows as int,
                NUM_SHA_EXTEND_COLS as int,
            );
            assert(is_trace(rows@, events));
        }
        row_major(values, NUM_SHA_EXTEND_COLS)
    }
}

} // verus!
