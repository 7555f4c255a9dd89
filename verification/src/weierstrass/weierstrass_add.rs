//! Addition of two points of a curve in short Weierstrass form.
//!
//! One row adds the point `q`, which it reads, to the point `p`, which it
//! overwrites with the sum. The sum is the chord through the two points:
//!
//! ```text
//! slope = (q.y - p.y) / (q.x - p.x)
//! x3    = slope² - (p.x + q.x)
//! y3    = slope · (p.x - x3) - p.y
//! ```
//!
//! The chord is all the chip computes. A quotient with divisor zero is zero
//! where the dividend is zero too, and has no witness otherwise. So for two
//! equal points the slope is zero and the row holds `(-2 · p.x, -p.y)`, not
//! the double of the point; two points on one vertical, one the negative of
//! the other, have no row at all; and the tuple of zeros, which pads the
//! trace, adds to itself to zeros.

use vstd::prelude::*;
use core::marker::PhantomData;
use crate::curve::EllipticCurve;
use crate::limbs::{Limbs, le_value};
use crate::memory::{
    MemoryReadCols, MemoryWriteCols, MemoryReadRecord, MemoryWriteRecord, access_event,
};
use crate::evaluator::RowEvaluator;
use crate::limbs::lemma_le_value_bound;
use crate::memory::{
    read_claimable, write_claimable, lemma_reads_satisfied, lemma_writes_satisfied,
    lemma_reads_unconstrained, lemma_writes_unconstrained, lemma_access_witness_satisfies,
    lemma_access_unconstrained,
};
use crate::operations::field_op::{
    lemma_op_holds, lemma_evaluator_reads_limbs, lemma_field_op_congruence, lemma_limbs_exist,
    lemma_reduced_operands_defined,
};
use crate::record::{ExecutionRecord, FieldEvent};
use crate::word::lemma_lanes;
use vstd::arithmetic::div_mod::lemma_small_mod;
use crate::trace::{
    padded_count, pad_rows, row_major, matrix_values, matrix_width, lemma_padded_count,
    is_power_of_two,
};
use p3_matrix::dense::RowMajorMatrix;
use crate::builder::{
    ConstraintBuilder, BuilderState, vanishes, seq_values, word_values, assert_zero_when,
};
use crate::memory::{
    access_state, access_values, reads_state, writes_state, eval_memory_access,
    eval_memory_read_slice, eval_memory_write_slice,
};
use crate::operations::field_op::{
    FieldOpCols, FieldOperation, field_op_defined, op_result, limbs_of, lemma_limbs_of, op_holds,
    limb_values, byte_ints,
};
use crate::word::lane;

verus! {

/// Number of words of one coordinate.
pub const NUM_WORDS_FIELD_ELEMENT: usize = 8;

/// Number of words of one point.
pub const NUM_WORDS_EC_POINT: usize = 16;

/// One addition of two points as the machine executed it.
#[derive(Clone, Copy, Debug)]
pub struct ECAddEvent {
    pub shard: u32,
    pub clk: u32,
    pub p_ptr: u32,
    /// The words of `p` before the addition: `x`, then `y`, least significant
    /// word first.
    pub p: [u32; 16],
    pub q_ptr: u32,
    /// The words of `q`.
    pub q: [u32; 16],
    pub q_ptr_record: MemoryReadRecord,
    pub p_memory_records: [MemoryWriteRecord; 16],
    pub q_memory_records: [MemoryReadRecord; 16],
}

/// Columns of one addition.
#[derive(Clone, Copy, Debug)]
pub struct WeierstrassAddAssignCols<T> {
    pub is_real: T,
    pub shard: T,
    pub clk: T,
    pub p_ptr: T,
    pub q_ptr: T,
    pub q_ptr_access: MemoryReadCols<T>,
    pub p_access: [MemoryWriteCols<T>; 16],
    pub q_access: [MemoryReadCols<T>; 16],
    pub slope_denominator: FieldOpCols<T>,
    pub slope_numerator: FieldOpCols<T>,
    pub slope: FieldOpCols<T>,
    pub slope_squared: FieldOpCols<T>,
    pub p_x_plus_q_x: FieldOpCols<T>,
    pub x3_ins: FieldOpCols<T>,
    pub p_x_minus_x: FieldOpCols<T>,
    pub y3_ins: FieldOpCols<T>,
    pub slope_times_p_x_minus_x: FieldOpCols<T>,
}

/// Number of columns of one addition.
pub const NUM_WEIERSTRASS_ADD_COLS: usize = 2058;

/// The cells of `n` writes in the order of a row.
pub open spec fn flat_writes<T: Copy>(writes: Seq<MemoryWriteCols<T>>, n: int) -> Seq<T>
    decreases n,
{
    if n <= 0 {
        Seq::empty()
    } else {
        flat_writes(writes, n - 1) + writes[n - 1].flat()
    }
}

/// The cells of `n` reads in the order of a row.
pub open spec fn flat_reads<T: Copy>(reads: Seq<MemoryReadCols<T>>, n: int) -> Seq<T>
    decreases n,
{
    if n <= 0 {
        Seq::empty()
    } else {
        flat_reads(reads, n - 1) + reads[n - 1].flat()
    }
}

/// The cells of the first writes depend on those writes only.
proof fn lemma_flat_writes_prefix<T: Copy>(
    a: Seq<MemoryWriteCols<T>>,
    b: Seq<MemoryWriteCols<T>>,
    n: int,
)
    requires
        0 <= n <= a.len(),
        n <= b.len(),
        forall|i: int| 0 <= i < n ==> a[i] == b[i],
    ensures
        flat_writes(a, n) == flat_writes(b, n),
    decreases n,
{
    if n > 0 {
        lemma_flat_writes_prefix(a, b, n - 1);
    }
}

/// The cells of the first reads depend on those reads only.
proof fn lemma_flat_reads_prefix<T: Copy>(
    a: Seq<MemoryReadCols<T>>,
    b: Seq<MemoryReadCols<T>>,
    n: int,
)
    requires
        0 <= n <= a.len(),
        n <= b.len(),
        forall|i: int| 0 <= i < n ==> a[i] == b[i],
    ensures
        flat_reads(a, n) == flat_reads(b, n),
    decreases n,
{
    if n > 0 {
        lemma_flat_reads_prefix(a, b, n - 1);
    }
}

impl<T: Copy> WeierstrassAddAssignCols<T> {
    /// The cells of the columns in the order of a row: the fields in the
    /// order of their declaration.
    pub open spec fn flat(self) -> Seq<T> {
        seq![self.is_real, self.shard, self.clk, self.p_ptr, self.q_ptr]
            + self.q_ptr_access.flat() + flat_writes(self.p_access@, 16) + flat_reads(
            self.q_access@,
            16,
        ) + self.slope_denominator.flat() + self.slope_numerator.flat() + self.slope.flat()
            + self.slope_squared.flat() + self.p_x_plus_q_x.flat() + self.x3_ins.flat()
            + self.p_x_minus_x.flat() + self.y3_ins.flat() + self.slope_times_p_x_minus_x.flat()
    }

    /// The columns whose cells are the cells of `row`.
    pub fn from_row(row: &[T]) -> (cols: Self)
        requires
            row.len() == NUM_WEIERSTRASS_ADD_COLS,
        ensures
            cols.flat() == row@,
    {
        let q_ptr_access = MemoryReadCols::from_row(row, 5);
        let mut p_access: [MemoryWriteCols<T>; 16] = [MemoryWriteCols::from_row(row, 14);16];
        let mut i: usize = 0;
        while i < 16
            invariant
                i <= 16,
                row.len() == NUM_WEIERSTRASS_ADD_COLS,
                flat_writes(p_access@, i as int) == row@.subrange(14, 14 + 13 * i),
            decreases 16 - i,
        {
            let ghost before = p_access@;
            let access = MemoryWriteCols::from_row(row, 14 + 13 * i);
            p_access[i] = access;
            proof {
                lemma_flat_writes_prefix(before, p_access@, i as int);
                assert(flat_writes(p_access@, i as int + 1) =~= row@.subrange(
                    14,
                    14 + 13 * (i + 1),
                ));
            }
            i += 1;
        }
        let mut q_access: [MemoryReadCols<T>; 16] = [MemoryReadCols::from_row(row, 222);16];
        let mut j: usize = 0;
        while j < 16
            invariant
                j <= 16,
                row.len() == NUM_WEIERSTRASS_ADD_COLS,
                flat_reads(q_access@, j as int) == row@.subrange(222, 222 + 9 * j),
            decreases 16 - j,
        {
            let ghost before = q_access@;
            let access = MemoryReadCols::from_row(row, 222 + 9 * j);
            q_access[j] = access;
            proof {
                lemma_flat_reads_prefix(before, q_access@, j as int);
                assert(flat_reads(q_access@, j as int + 1) =~= row@.subrange(
                    222,
                    222 + 9 * (j + 1),
                ));
            }
            j += 1;
        }
        let cols = WeierstrassAddAssignCols {
            is_real: row[0],
            shard: row[1],
            clk: row[2],
            p_ptr: row[3],
            q_ptr: row[4],
            q_ptr_access,
            p_access,
            q_access,
            slope_denominator: FieldOpCols::from_row(row, 366),
            slope_numerator: FieldOpCols::from_row(row, 554),
            slope: FieldOpCols::from_row(row, 742),
            slope_squared: FieldOpCols::from_row(row, 930),
            p_x_plus_q_x: FieldOpCols::from_row(row, 1118),
            x3_ins: FieldOpCols::from_row(row, 1306),
            p_x_minus_x: FieldOpCols::from_row(row, 1494),
            y3_ins: FieldOpCols::from_row(row, 1682),
            slope_times_p_x_minus_x: FieldOpCols::from_row(row, 1870),
        };
        assert(cols.flat() =~= row@);
        cols
    }

    /// Appends the cells of the columns to `row`.
    pub fn append_to(&self, row: &mut Vec<T>)
        ensures
            final(row)@ == old(row)@ + self.flat(),
            self.flat().len() == NUM_WEIERSTRASS_ADD_COLS,
    {
        row.push(self.is_real);
        row.push(self.shard);
        row.push(self.clk);
        row.push(self.p_ptr);
        row.push(self.q_ptr);
        self.q_ptr_access.append_to(row);
        let ghost head = row@;
        let ghost scalars = seq![self.is_real, self.shard, self.clk, self.p_ptr, self.q_ptr];
        assert(head =~= old(row)@ + (scalars + self.q_ptr_access.flat()));
        let mut i: usize = 0;
        while i < 16
            invariant
                i <= 16,
                row@ == head + flat_writes(self.p_access@, i as int),
                flat_writes(self.p_access@, i as int).len() == 13 * i,
            decreases 16 - i,
        {
            self.p_access[i].append_to(row);
            assert(row@ =~= head + flat_writes(self.p_access@, i as int + 1));
            i += 1;
        }
        let ghost writes = row@;
        let mut j: usize = 0;
        while j < 16
            invariant
                j <= 16,
                row@ == writes + flat_reads(self.q_access@, j as int),
                flat_reads(self.q_access@, j as int).len() == 9 * j,
            decreases 16 - j,
        {
            self.q_access[j].append_to(row);
            assert(row@ =~= writes + flat_reads(self.q_access@, j as int + 1));
            j += 1;
        }
        self.slope_denominator.append_to(row);
        self.slope_numerator.append_to(row);
        self.slope.append_to(row);
        self.slope_squared.append_to(row);
        self.p_x_plus_q_x.append_to(row);
        self.x3_ins.append_to(row);
        self.p_x_minus_x.append_to(row);
        self.y3_ins.append_to(row);
        self.slope_times_p_x_minus_x.append_to(row);
        assert(row@ =~= old(row)@ + self.flat());
    }
}

/// The limbs of the coordinate held in the eight words of `words` from
/// `first` on, least significant word first.
pub open spec fn words_limbs(words: [u32; 16], first: int) -> Seq<u8> {
    Seq::new(32, |k: int| lane(words[first + k / 4], k % 4) as u8)
}

/// The coordinate held in the eight words of `words` from `first` on.
pub fn limbs_from_words(words: &[u32; 16], first: usize) -> (limbs: Limbs<u8>)
    requires
        first <= 8,
    ensures
        limbs.0@ == words_limbs(*words, first as int),
{
    let mut out: [u8; 32] = [0u8; 32];
    let mut k: usize = 0;
    while k < 32
        invariant
            k <= 32,
            first <= 8,
            forall|j: int| 0 <= j < k ==> out[j] == lane(words[first + j / 4], j % 4) as u8,
        decreases 32 - k,
    {
        out[k] = crate::word::byte(words[first + k / 4], k % 4);
        k += 1;
    }
    assert(out@ =~= words_limbs(*words, first as int));
    Limbs(out)
}

/// The columns of sixteen writes.
#[verifier::opaque]
pub open spec fn write_witnesses(records: [MemoryWriteRecord; 16]) -> [MemoryWriteCols<u32>; 16] {
    [
        MemoryWriteCols::witness(records[0]),
        MemoryWriteCols::witness(records[1]),
        MemoryWriteCols::witness(records[2]),
        MemoryWriteCols::witness(records[3]),
        MemoryWriteCols::witness(records[4]),
        MemoryWriteCols::witness(records[5]),
        MemoryWriteCols::witness(records[6]),
        MemoryWriteCols::witness(records[7]),
        MemoryWriteCols::witness(records[8]),
        MemoryWriteCols::witness(records[9]),
        MemoryWriteCols::witness(records[10]),
        MemoryWriteCols::witness(records[11]),
        MemoryWriteCols::witness(records[12]),
        MemoryWriteCols::witness(records[13]),
        MemoryWriteCols::witness(records[14]),
        MemoryWriteCols::witness(records[15]),
    ]
}

/// The columns of sixteen reads.
#[verifier::opaque]
pub open spec fn read_witnesses(records: [MemoryReadRecord; 16]) -> [MemoryReadCols<u32>; 16] {
    [
        MemoryReadCols::witness(records[0]),
        MemoryReadCols::witness(records[1]),
        MemoryReadCols::witness(records[2]),
        MemoryReadCols::witness(records[3]),
        MemoryReadCols::witness(records[4]),
        MemoryReadCols::witness(records[5]),
        MemoryReadCols::witness(records[6]),
        MemoryReadCols::witness(records[7]),
        MemoryReadCols::witness(records[8]),
        MemoryReadCols::witness(records[9]),
        MemoryReadCols::witness(records[10]),
        MemoryReadCols::witness(records[11]),
        MemoryReadCols::witness(records[12]),
        MemoryReadCols::witness(records[13]),
        MemoryReadCols::witness(records[14]),
        MemoryReadCols::witness(records[15]),
    ]
}

/// Sixteen writes of zeros.
#[verifier::opaque]
pub open spec fn zero_writes() -> [MemoryWriteCols<u32>; 16] {
    [
        MemoryWriteCols::zero(),
        MemoryWriteCols::zero(),
        MemoryWriteCols::zero(),
        MemoryWriteCols::zero(),
        MemoryWriteCols::zero(),
        MemoryWriteCols::zero(),
        MemoryWriteCols::zero(),
        MemoryWriteCols::zero(),
        MemoryWriteCols::zero(),
        MemoryWriteCols::zero(),
        MemoryWriteCols::zero(),
        MemoryWriteCols::zero(),
        MemoryWriteCols::zero(),
        MemoryWriteCols::zero(),
        MemoryWriteCols::zero(),
        MemoryWriteCols::zero(),
    ]
}

/// Sixteen reads of zeros.
#[verifier::opaque]
pub open spec fn zero_reads() -> [MemoryReadCols<u32>; 16] {
    [
        MemoryReadCols::zero(),
        MemoryReadCols::zero(),
        MemoryReadCols::zero(),
        MemoryReadCols::zero(),
        MemoryReadCols::zero(),
        MemoryReadCols::zero(),
        MemoryReadCols::zero(),
        MemoryReadCols::zero(),
        MemoryReadCols::zero(),
        MemoryReadCols::zero(),
        MemoryReadCols::zero(),
        MemoryReadCols::zero(),
        MemoryReadCols::zero(),
        MemoryReadCols::zero(),
        MemoryReadCols::zero(),
        MemoryReadCols::zero(),
    ]
}

/// The comparisons that the accesses of the first `n` of sixteen reads leave.
pub open spec fn read_events(records: [MemoryReadRecord; 16], n: int) -> Seq<FieldEvent>
    decreases n,
{
    if n <= 0 {
        Seq::empty()
    } else {
        read_events(records, n - 1).push(
            access_event(
                records[n - 1].shard,
                records[n - 1].timestamp,
                records[n - 1].prev_shard,
                records[n - 1].prev_timestamp,
            ),
        )
    }
}

/// The comparisons that the accesses of the first `n` of sixteen writes
/// leave.
pub open spec fn write_events(records: [MemoryWriteRecord; 16], n: int) -> Seq<FieldEvent>
    decreases n,
{
    if n <= 0 {
        Seq::empty()
    } else {
        write_events(records, n - 1).push(
            access_event(
                records[n - 1].shard,
                records[n - 1].timestamp,
                records[n - 1].prev_shard,
                records[n - 1].prev_timestamp,
            ),
        )
    }
}

/// The comparisons that the row of `event` leaves: those of the words of
/// `q`, of the words of `p`, and of the pointer to `q`.
#[verifier::opaque]
pub open spec fn event_field_events(event: ECAddEvent) -> Seq<FieldEvent> {
    (read_events(event.q_memory_records, 16) + write_events(event.p_memory_records, 16)).push(
        access_event(
            event.q_ptr_record.shard,
            event.q_ptr_record.timestamp,
            event.q_ptr_record.prev_shard,
            event.q_ptr_record.prev_timestamp,
        ),
    )
}

/// The comparisons that the rows of the first `n` of `events` leave.
pub open spec fn trace_field_events(events: Seq<ECAddEvent>, n: int) -> Seq<FieldEvent>
    decreases n,
{
    if n <= 0 {
        Seq::empty()
    } else {
        trace_field_events(events, n - 1) + event_field_events(events[n - 1])
    }
}

/// What can go wrong when a trace is generated.
#[derive(Clone, Copy, Debug, PartialEq, Eq, Structural)]
pub enum TraceError {
    /// The addition of the event with this index has no witness.
    UndefinedAddition(usize),
    /// The modulus of the curve admits no padding row.
    UndefinedPadding,
}

/// Whether the addition of `event` on the curve `E` has a witness.
pub open spec fn event_defined<E: EllipticCurve>(event: ECAddEvent) -> bool {
    add_defined(
        words_limbs(event.p, 0),
        words_limbs(event.p, 8),
        words_limbs(event.q, 0),
        words_limbs(event.q, 8),
        E::modulus_limbs().0@,
    )
}

/// The nine sets of columns of the chord through `(p_x, p_y)` and
/// `(q_x, q_y)`, in the other columns of `rest`.
#[verifier::opaque]
pub open spec fn with_field_ops(
    rest: WeierstrassAddAssignCols<u32>,
    p_x: Seq<u8>,
    p_y: Seq<u8>,
    q_x: Seq<u8>,
    q_y: Seq<u8>,
    m: Seq<u8>,
) -> WeierstrassAddAssignCols<u32> {
    let s = add_steps(p_x, p_y, q_x, q_y, m);
    WeierstrassAddAssignCols {
        is_real: rest.is_real,
        shard: rest.shard,
        clk: rest.clk,
        p_ptr: rest.p_ptr,
        q_ptr: rest.q_ptr,
        q_ptr_access: rest.q_ptr_access,
        p_access: rest.p_access,
        q_access: rest.q_access,
        slope_denominator: FieldOpCols::witness(q_x, p_x, m, FieldOperation::Sub),
        slope_numerator: FieldOpCols::witness(q_y, p_y, m, FieldOperation::Sub),
        slope: FieldOpCols::witness(
            s.slope_numerator,
            s.slope_denominator,
            m,
            FieldOperation::Div,
        ),
        slope_squared: FieldOpCols::witness(s.slope, s.slope, m, FieldOperation::Mul),
        p_x_plus_q_x: FieldOpCols::witness(p_x, q_x, m, FieldOperation::Add),
        x3_ins: FieldOpCols::witness(s.slope_squared, s.p_x_plus_q_x, m, FieldOperation::Sub),
        p_x_minus_x: FieldOpCols::witness(p_x, s.x3, m, FieldOperation::Sub),
        y3_ins: FieldOpCols::witness(s.slope_times_p_x_minus_x, p_y, m, FieldOperation::Sub),
        slope_times_p_x_minus_x: FieldOpCols::witness(
            s.slope,
            s.p_x_minus_x,
            m,
            FieldOperation::Mul,
        ),
    }
}

/// The row of `event` on the curve `E`.
#[verifier::opaque]
pub open spec fn event_row<E: EllipticCurve>(event: ECAddEvent) -> WeierstrassAddAssignCols<u32> {
    WeierstrassAddAssignCols {
        is_real: 1,
        shard: event.shard,
        clk: event.clk,
        p_ptr: event.p_ptr,
        q_ptr: event.q_ptr,
        q_ptr_access: MemoryReadCols::witness(event.q_ptr_record),
        p_access: write_witnesses(event.p_memory_records),
        q_access: read_witnesses(event.q_memory_records),
        ..with_field_ops(
            arbitrary(),
            words_limbs(event.p, 0),
            words_limbs(event.p, 8),
            words_limbs(event.q, 0),
            words_limbs(event.q, 8),
            E::modulus_limbs().0@,
        )
    }
}

/// The limbs of zero.
pub open spec fn zero_limbs() -> Seq<u8> {
    Seq::new(32, |k: int| 0u8)
}

/// Whether the row that pads a trace of the curve `E` exists: the chord
/// through the tuple of zeros has a witness.
pub open spec fn padding_defined<E: EllipticCurve>() -> bool {
    add_defined(zero_limbs(), zero_limbs(), zero_limbs(), zero_limbs(), E::modulus_limbs().0@)
}

/// The row that pads a trace of the curve `E`: zeros, but for the columns of
/// the chord through the tuple of zeros.
#[verifier::opaque]
pub open spec fn padding_row<E: EllipticCurve>() -> WeierstrassAddAssignCols<u32> {
    WeierstrassAddAssignCols {
        is_real: 0,
        shard: 0,
        clk: 0,
        p_ptr: 0,
        q_ptr: 0,
        q_ptr_access: MemoryReadCols::zero(),
        p_access: zero_writes(),
        q_access: zero_reads(),
        ..with_field_ops(
            arbitrary(),
            zero_limbs(),
            zero_limbs(),
            zero_limbs(),
            zero_limbs(),
            E::modulus_limbs().0@,
        )
    }
}

/// The rows of the trace of `events`: one for each event, then padding rows
/// up to the padded count.
pub open spec fn trace_rows<E: EllipticCurve>(events: Seq<ECAddEvent>) -> Seq<
    WeierstrassAddAssignCols<u32>,
> {
    Seq::new(
        padded_count(events.len()),
        |i: int|
            if i < events.len() {
                event_row::<E>(events[i])
            } else {
                padding_row::<E>()
            },
    )
}

/// The cells of the first `n` of `rows`, row after row.
pub open spec fn flat_rows(rows: Seq<WeierstrassAddAssignCols<u32>>, n: int) -> Seq<u32>
    decreases n,
{
    if n <= 0 {
        Seq::empty()
    } else {
        flat_rows(rows, n - 1) + rows[n - 1].flat()
    }
}

/// The chip that adds points of the curve `E`.
pub struct WeierstrassAddAssignChip<E> {
    _marker: PhantomData<E>,
}

/// The limbs of the result of an operation on the limbs `a` and `b` modulo
/// the limbs `m`.
pub open spec fn step(a: Seq<u8>, b: Seq<u8>, m: Seq<u8>, op: FieldOperation) -> Seq<u8> {
    limbs_of(op_result(le_value(a), le_value(b), le_value(m), op))
}

/// The limbs that the addition of `(p_x, p_y)` and `(q_x, q_y)` computes on
/// the way, modulo `m`.
pub struct AddSteps {
    pub slope_numerator: Seq<u8>,
    pub slope_denominator: Seq<u8>,
    pub slope: Seq<u8>,
    pub slope_squared: Seq<u8>,
    pub p_x_plus_q_x: Seq<u8>,
    pub x3: Seq<u8>,
    pub p_x_minus_x: Seq<u8>,
    pub slope_times_p_x_minus_x: Seq<u8>,
    pub y3: Seq<u8>,
}

/// The steps of the chord through `(p_x, p_y)` and `(q_x, q_y)`.
#[verifier::opaque]
pub open spec fn add_steps(
    p_x: Seq<u8>,
    p_y: Seq<u8>,
    q_x: Seq<u8>,
    q_y: Seq<u8>,
    m: Seq<u8>,
) -> AddSteps {
    let slope_numerator = step(q_y, p_y, m, FieldOperation::Sub);
    let slope_denominator = step(q_x, p_x, m, FieldOperation::Sub);
    let slope = step(slope_numerator, slope_denominator, m, FieldOperation::Div);
    let slope_squared = step(slope, slope, m, FieldOperation::Mul);
    let p_x_plus_q_x = step(p_x, q_x, m, FieldOperation::Add);
    let x3 = step(slope_squared, p_x_plus_q_x, m, FieldOperation::Sub);
    let p_x_minus_x = step(p_x, x3, m, FieldOperation::Sub);
    let slope_times_p_x_minus_x = step(slope, p_x_minus_x, m, FieldOperation::Mul);
    let y3 = step(slope_times_p_x_minus_x, p_y, m, FieldOperation::Sub);
    AddSteps {
        slope_numerator,
        slope_denominator,
        slope,
        slope_squared,
        p_x_plus_q_x,
        x3,
        p_x_minus_x,
        slope_times_p_x_minus_x,
        y3,
    }
}

/// Whether every step of the chord through `(p_x, p_y)` and `(q_x, q_y)` has
/// a witness.
#[verifier::opaque]
pub open spec fn add_defined(
    p_x: Seq<u8>,
    p_y: Seq<u8>,
    q_x: Seq<u8>,
    q_y: Seq<u8>,
    m: Seq<u8>,
) -> bool {
    let s = add_steps(p_x, p_y, q_x, q_y, m);
    &&& field_op_defined(q_y, p_y, m, FieldOperation::Sub)
    &&& field_op_defined(q_x, p_x, m, FieldOperation::Sub)
    &&& field_op_defined(s.slope_numerator, s.slope_denominator, m, FieldOperation::Div)
    &&& field_op_defined(s.slope, s.slope, m, FieldOperation::Mul)
    &&& field_op_defined(p_x, q_x, m, FieldOperation::Add)
    &&& field_op_defined(s.slope_squared, s.p_x_plus_q_x, m, FieldOperation::Sub)
    &&& field_op_defined(p_x, s.x3, m, FieldOperation::Sub)
    &&& field_op_defined(s.slope, s.p_x_minus_x, m, FieldOperation::Mul)
    &&& field_op_defined(s.slope_times_p_x_minus_x, p_y, m, FieldOperation::Sub)
}

impl WeierstrassAddAssignCols<u32> {
    /// Whether the nine sets of columns of field operations are those of the
    /// chord through `(p_x, p_y)` and `(q_x, q_y)`.
    pub open spec fn witnesses_add(
        self,
        p_x: Seq<u8>,
        p_y: Seq<u8>,
        q_x: Seq<u8>,
        q_y: Seq<u8>,
        m: Seq<u8>,
    ) -> bool {
        let s = add_steps(p_x, p_y, q_x, q_y, m);
        &&& self.slope_numerator.is_witness(q_y, p_y, m, FieldOperation::Sub)
        &&& self.slope_denominator.is_witness(q_x, p_x, m, FieldOperation::Sub)
        &&& self.slope.is_witness(s.slope_numerator, s.slope_denominator, m, FieldOperation::Div)
        &&& self.slope_squared.is_witness(s.slope, s.slope, m, FieldOperation::Mul)
        &&& self.p_x_plus_q_x.is_witness(p_x, q_x, m, FieldOperation::Add)
        &&& self.x3_ins.is_witness(s.slope_squared, s.p_x_plus_q_x, m, FieldOperation::Sub)
        &&& self.p_x_minus_x.is_witness(p_x, s.x3, m, FieldOperation::Sub)
        &&& self.slope_times_p_x_minus_x.is_witness(
            s.slope,
            s.p_x_minus_x,
            m,
            FieldOperation::Mul,
        )
        &&& self.y3_ins.is_witness(s.slope_times_p_x_minus_x, p_y, m, FieldOperation::Sub)
    }

    /// Whether the columns outside the field operations are those of
    /// `other`.
    pub open spec fn same_accesses(self, other: Self) -> bool {
        &&& self.is_real == other.is_real
        &&& self.shard == other.shard
        &&& self.clk == other.clk
        &&& self.p_ptr == other.p_ptr
        &&& self.q_ptr == other.q_ptr
        &&& self.q_ptr_access == other.q_ptr_access
        &&& self.p_access == other.p_access
        &&& self.q_access == other.q_access
    }
}

/// The limbs of a coordinate in the values that eight writes from `first` on
/// overwrite.
pub open spec fn prev_limbs<T>(writes: [MemoryWriteCols<T>; 16], first: int) -> Seq<T> {
    Seq::new(32, |k: int| writes[first + k / 4].prev_value.0[k % 4])
}

/// The limbs of a coordinate in the values that eight writes from `first` on
/// leave.
pub open spec fn written_limbs<T>(writes: [MemoryWriteCols<T>; 16], first: int) -> Seq<T> {
    Seq::new(32, |k: int| writes[first + k / 4].access.value.0[k % 4])
}

/// The limbs of a coordinate in the values of eight reads from `first` on.
pub open spec fn read_limbs<T>(reads: [MemoryReadCols<T>; 16], first: int) -> Seq<T> {
    Seq::new(32, |k: int| reads[first + k / 4].access.value.0[k % 4])
}

/// The coordinate that eight writes from `first` on overwrite.
pub fn limbs_from_prev_access<T: Copy>(writes: &[MemoryWriteCols<T>; 16], first: usize) -> (limbs:
    Limbs<T>)
    requires
        first <= 8,
    ensures
        limbs.0@ == prev_limbs(*writes, first as int),
{
    let mut out: [T; 32] = [writes[0].prev_value.0[0];32];
    let mut k: usize = 0;
    while k < 32
        invariant
            k <= 32,
            first <= 8,
            forall|j: int| 0 <= j < k ==> out[j] == writes[first + j / 4].prev_value.0[j % 4],
        decreases 32 - k,
    {
        out[k] = writes[first + k / 4].prev_value.0[k % 4];
        k += 1;
    }
    assert(out@ =~= prev_limbs(*writes, first as int));
    Limbs(out)
}

/// The coordinate that eight writes from `first` on leave.
pub fn limbs_from_access<T: Copy>(writes: &[MemoryWriteCols<T>; 16], first: usize) -> (limbs:
    Limbs<T>)
    requires
        first <= 8,
    ensures
        limbs.0@ == written_limbs(*writes, first as int),
{
    let mut out: [T; 32] = [writes[0].prev_value.0[0];32];
    let mut k: usize = 0;
    while k < 32
        invariant
            k <= 32,
            first <= 8,
            forall|j: int| 0 <= j < k ==> out[j] == writes[first + j / 4].access.value.0[j % 4],
        decreases 32 - k,
    {
        out[k] = writes[first + k / 4].access.value.0[k % 4];
        k += 1;
    }
    assert(out@ =~= written_limbs(*writes, first as int));
    Limbs(out)
}

/// The coordinate that eight reads from `first` on read.
pub fn limbs_from_read_access<T: Copy>(reads: &[MemoryReadCols<T>; 16], first: usize) -> (limbs:
    Limbs<T>)
    requires
        first <= 8,
    ensures
        limbs.0@ == read_limbs(*reads, first as int),
{
    let mut out: [T; 32] = [reads[0].access.value.0[0];32];
    let mut k: usize = 0;
    while k < 32
        invariant
            k <= 32,
            first <= 8,
            forall|j: int| 0 <= j < k ==> out[j] == reads[first + j / 4].access.value.0[j % 4],
        decreases 32 - k,
    {
        out[k] = reads[first + k / 4].access.value.0[k % 4];
        k += 1;
    }
    assert(out@ =~= read_limbs(*reads, first as int));
    Limbs(out)
}

/// Whether limb `i` of `a` and of `b` agree in the field on the rows where
/// `is_real` is one.
pub open spec fn limb_agrees(a: Seq<int>, b: Seq<int>, i: int, is_real: int, p: int) -> bool {
    vanishes(is_real * (a[i] - b[i]), p)
}

/// Whether the thirty-two limbs of `a` and of `b` agree in the field on the
/// rows where `is_real` is one.
pub open spec fn limbs_agree(a: Seq<int>, b: Seq<int>, is_real: int, p: int) -> bool {
    forall|i: int| 0 <= i < 32 ==> #[trigger] limb_agrees(a, b, i, is_real, p)
}

/// States that the limbs of `a` equal the limbs of `b` on the rows where
/// `is_real` is one.
fn assert_limbs_agree<B: ConstraintBuilder>(
    builder: &mut B,
    a: &Limbs<B::Var>,
    b: &Limbs<B::Var>,
    is_real: B::Var,
)
    ensures
        final(builder).state() == old(builder).state().and(
            limbs_agree(
                limb_values::<B>(*a),
                limb_values::<B>(*b),
                B::var_value(is_real),
                B::modulus(),
            ),
        ),
{
    let mut i: usize = 0;
    while i < 32
        invariant
            i <= 32,
            builder.state() == old(builder).state().and(
                forall|j: int|
                    0 <= j < i ==> #[trigger] limb_agrees(
                        limb_values::<B>(*a),
                        limb_values::<B>(*b),
                        j,
                        B::var_value(is_real),
                        B::modulus(),
                    ),
            ),
        decreases 32 - i,
    {
        let ghost before = builder.state();
        let difference = B::minus(&B::lift(a.0[i]), &B::lift(b.0[i]));
        assert_zero_when(builder, is_real, &difference);
        proof {
            assert(builder.state() == before.and(
                limb_agrees(
                    limb_values::<B>(*a),
                    limb_values::<B>(*b),
                    i as int,
                    B::var_value(is_real),
                    B::modulus(),
                ),
            ));
        }
        i += 1;
    }
}

/// The identities of the chord on a row: each of the nine field operations
/// holds on the limbs that the accesses hold and on the results of the steps
/// before it, and the sum is what the writes to `p` leave.
pub open spec fn chord_relation<B: ConstraintBuilder, E: EllipticCurve>(
    row: WeierstrassAddAssignCols<B::Var>,
) -> bool {
    let m = byte_ints(E::modulus_limbs().0@);
    let p_x = seq_values::<B>(prev_limbs(row.p_access, 0));
    let p_y = seq_values::<B>(prev_limbs(row.p_access, 8));
    let q_x = seq_values::<B>(read_limbs(row.q_access, 0));
    let q_y = seq_values::<B>(read_limbs(row.q_access, 8));
    let slope = limb_values::<B>(row.slope.result);
    let x3 = limb_values::<B>(row.x3_ins.result);
    let y3 = limb_values::<B>(row.y3_ins.result);
    &&& op_holds::<B>(q_y, p_y, row.slope_numerator, m, FieldOperation::Sub)
    &&& op_holds::<B>(q_x, p_x, row.slope_denominator, m, FieldOperation::Sub)
    &&& op_holds::<B>(
        limb_values::<B>(row.slope_numerator.result),
        limb_values::<B>(row.slope_denominator.result),
        row.slope,
        m,
        FieldOperation::Div,
    )
    &&& op_holds::<B>(slope, slope, row.slope_squared, m, FieldOperation::Mul)
    &&& op_holds::<B>(p_x, q_x, row.p_x_plus_q_x, m, FieldOperation::Add)
    &&& op_holds::<B>(
        limb_values::<B>(row.slope_squared.result),
        limb_values::<B>(row.p_x_plus_q_x.result),
        row.x3_ins,
        m,
        FieldOperation::Sub,
    )
    &&& op_holds::<B>(p_x, x3, row.p_x_minus_x, m, FieldOperation::Sub)
    &&& op_holds::<B>(
        slope,
        limb_values::<B>(row.p_x_minus_x.result),
        row.slope_times_p_x_minus_x,
        m,
        FieldOperation::Mul,
    )
    &&& op_holds::<B>(
        limb_values::<B>(row.slope_times_p_x_minus_x.result),
        p_y,
        row.y3_ins,
        m,
        FieldOperation::Sub,
    )
    &&& limbs_agree(
        x3,
        seq_values::<B>(written_limbs(row.p_access, 0)),
        B::var_value(row.is_real),
        B::modulus(),
    )
    &&& limbs_agree(
        y3,
        seq_values::<B>(written_limbs(row.p_access, 8)),
        B::var_value(row.is_real),
        B::modulus(),
    )
}

/// The number of the register that holds the pointer to `q`.
pub const Q_PTR_REGISTER: u32 = 11;

/// What a builder has been told after a row is stated: the identities of the
/// chord; the read of the pointer to `q` from its register and the reads of
/// the words of `q`, at the clock of the row; and the writes of the words of
/// `p`, four cycles later.
pub open spec fn add_row_state<B: ConstraintBuilder, E: EllipticCurve>(
    before: BuilderState,
    row: WeierstrassAddAssignCols<B::Var>,
) -> BuilderState {
    let shard = B::var_value(row.shard);
    let clk = B::var_value(row.clk);
    let is_real = B::var_value(row.is_real);
    writes_state::<B>(
        reads_state::<B>(
            access_state(
                before.and(chord_relation::<B, E>(row)),
                shard,
                clk,
                Q_PTR_REGISTER as int,
                word_values::<B>(row.q_ptr_access.access.value),
                word_values::<B>(row.q_ptr_access.access.value),
                access_values::<B>(row.q_ptr_access.access),
                is_real,
                B::modulus(),
            ),
            shard,
            clk,
            B::var_value(row.q_ptr),
            row.q_access@,
            is_real,
            16,
        ),
        shard,
        clk + 4,
        B::var_value(row.p_ptr),
        row.p_access@,
        is_real,
        16,
    )
}

impl WeierstrassAddAssignCols<u32> {
    /// Columns of zeros.
    pub fn zeroed() -> (cols: Self)
        ensures
            cols.is_real == 0,
            cols.shard == 0,
            cols.clk == 0,
            cols.p_ptr == 0,
            cols.q_ptr == 0,
            cols.q_ptr_access == MemoryReadCols::zero(),
            cols.p_access == zero_writes(),
            cols.q_access == zero_reads(),
            cols.slope_denominator.is_zero(),
            cols.slope_numerator.is_zero(),
            cols.slope.is_zero(),
            cols.slope_squared.is_zero(),
            cols.p_x_plus_q_x.is_zero(),
            cols.x3_ins.is_zero(),
            cols.p_x_minus_x.is_zero(),
            cols.y3_ins.is_zero(),
            cols.slope_times_p_x_minus_x.is_zero(),
    {
        let cols = WeierstrassAddAssignCols {
            is_real: 0,
            shard: 0,
            clk: 0,
            p_ptr: 0,
            q_ptr: 0,
            q_ptr_access: MemoryReadCols::zeroed(),
            p_access: [MemoryWriteCols::zeroed();16],
            q_access: [MemoryReadCols::zeroed();16],
            slope_denominator: FieldOpCols::zeroed(),
            slope_numerator: FieldOpCols::zeroed(),
            slope: FieldOpCols::zeroed(),
            slope_squared: FieldOpCols::zeroed(),
            p_x_plus_q_x: FieldOpCols::zeroed(),
            x3_ins: FieldOpCols::zeroed(),
            p_x_minus_x: FieldOpCols::zeroed(),
            y3_ins: FieldOpCols::zeroed(),
            slope_times_p_x_minus_x: FieldOpCols::zeroed(),
        };
        proof {
            reveal(zero_writes);
            reveal(zero_reads);
        }
        assert(cols.p_access =~= zero_writes());
        assert(cols.q_access =~= zero_reads());
        cols
    }

    /// The columns of the field operations are determined by the points.
    proof fn lemma_field_ops_unique(
        self,
        p_x: Seq<u8>,
        p_y: Seq<u8>,
        q_x: Seq<u8>,
        q_y: Seq<u8>,
        m: Seq<u8>,
    )
        requires
            self.witnesses_add(p_x, p_y, q_x, q_y, m),
        ensures
            self == with_field_ops(self, p_x, p_y, q_x, q_y, m),
    {
        reveal(with_field_ops);
        let s = add_steps(p_x, p_y, q_x, q_y, m);
        self.slope_numerator.lemma_witness_unique(q_y, p_y, m, FieldOperation::Sub);
        self.slope_denominator.lemma_witness_unique(q_x, p_x, m, FieldOperation::Sub);
        self.slope.lemma_witness_unique(
            s.slope_numerator,
            s.slope_denominator,
            m,
            FieldOperation::Div,
        );
        self.slope_squared.lemma_witness_unique(s.slope, s.slope, m, FieldOperation::Mul);
        self.p_x_plus_q_x.lemma_witness_unique(p_x, q_x, m, FieldOperation::Add);
        self.x3_ins.lemma_witness_unique(s.slope_squared, s.p_x_plus_q_x, m, FieldOperation::Sub);
        self.p_x_minus_x.lemma_witness_unique(p_x, s.x3, m, FieldOperation::Sub);
        self.slope_times_p_x_minus_x.lemma_witness_unique(
            s.slope,
            s.p_x_minus_x,
            m,
            FieldOperation::Mul,
        );
        self.y3_ins.lemma_witness_unique(s.slope_times_p_x_minus_x, p_y, m, FieldOperation::Sub);
    }
}

impl<E: EllipticCurve> WeierstrassAddAssignChip<E> {
    pub fn new() -> Self {
        Self { _marker: PhantomData }
    }

    /// The name of the chip.
    pub fn name(&self) -> (name: String)
        ensures
            name@ == "WeierstrassAddAssign"@,
    {
        "WeierstrassAddAssign".to_owned()
    }

    /// Records that the machine executed `event` and returns what the call
    /// leaves in its result register: the word after the pointer to `p`.
    pub fn execute(&self, record: &mut ExecutionRecord, event: ECAddEvent) -> (r: u32)
        requires
            event.p_ptr < u32::MAX,
        ensures
            r == event.p_ptr + 1,
            final(record).weierstrass_add_events@ == old(record).weierstrass_add_events@.push(
                event,
            ),
            final(record).sha_extend_events@ == old(record).sha_extend_events@,
            final(record).byte_lookup_events@ == old(record).byte_lookup_events@,
            final(record).field_events@ == old(record).field_events@,
    {
        record.weierstrass_add_events.push(event);
        event.p_ptr + 1
    }

    /// The number of columns of a row.
    pub fn width(&self) -> (w: usize)
        ensures
            w == NUM_WEIERSTRASS_ADD_COLS,
    {
        NUM_WEIERSTRASS_ADD_COLS
    }

    /// The number of clock cycles that one addition takes beyond the first.
    pub fn num_extra_cycles(&self) -> (n: u32)
        ensures
            n == 8,
    {
        8
    }

    /// The columns of the reads in `records`; the comparisons of their stamps
    /// are appended to `new_field_events`.
    fn read_accesses(
        records: &[MemoryReadRecord; 16],
        new_field_events: &mut Vec<FieldEvent>,
    ) -> (accesses: [MemoryReadCols<u32>; 16])
        ensures
            accesses == read_witnesses(*records),
            final(new_field_events)@ == old(new_field_events)@ + read_events(*records, 16),
    {
        let mut accesses: [MemoryReadCols<u32>; 16] = [MemoryReadCols::zeroed();16];
        let mut i: usize = 0;
        while i < 16
            invariant
                i <= 16,
                forall|j: int| 0 <= j < i ==> accesses[j] == MemoryReadCols::witness(records[j]),
                new_field_events@ == old(new_field_events)@ + read_events(*records, i as int),
            decreases 16 - i,
        {
            let mut access = MemoryReadCols::zeroed();
            access.populate(records[i], new_field_events);
            accesses[i] = access;
            assert(new_field_events@ =~= old(new_field_events)@ + read_events(
                *records,
                i as int + 1,
            ));
            i += 1;
        }
        proof {
            reveal(read_witnesses);
            assert(accesses =~= read_witnesses(*records));
        }
        accesses
    }

    /// The columns of the writes in `records`; the comparisons of their
    /// stamps are appended to `new_field_events`.
    fn write_accesses(
        records: &[MemoryWriteRecord; 16],
        new_field_events: &mut Vec<FieldEvent>,
    ) -> (accesses: [MemoryWriteCols<u32>; 16])
        ensures
            accesses == write_witnesses(*records),
            final(new_field_events)@ == old(new_field_events)@ + write_events(*records, 16),
    {
        let mut accesses: [MemoryWriteCols<u32>; 16] = [MemoryWriteCols::zeroed();16];
        let mut i: usize = 0;
        while i < 16
            invariant
                i <= 16,
                forall|j: int| 0 <= j < i ==> accesses[j] == MemoryWriteCols::witness(records[j]),
                new_field_events@ == old(new_field_events)@ + write_events(*records, i as int),
            decreases 16 - i,
        {
            let mut access = MemoryWriteCols::zeroed();
            access.populate(records[i], new_field_events);
            accesses[i] = access;
            assert(new_field_events@ =~= old(new_field_events)@ + write_events(
                *records,
                i as int + 1,
            ));
            i += 1;
        }
        proof {
            reveal(write_witnesses);
            assert(accesses =~= write_witnesses(*records));
        }
        accesses
    }

    /// States the identities of a row: those of the chord, and those of the
    /// accesses to the pointer to `q`, to `q` and to `p`.
    pub fn eval<B: ConstraintBuilder>(
        &self,
        builder: &mut B,
        row: &WeierstrassAddAssignCols<B::Var>,
    )
        ensures
            final(builder).state() == add_row_state::<B, E>(old(builder).state(), *row),
    {
        let modulus = E::modulus();
        let p_x = limbs_from_prev_access(&row.p_access, 0);
        let p_y = limbs_from_prev_access(&row.p_access, 8);
        let q_x = limbs_from_read_access(&row.q_access, 0);
        let q_y = limbs_from_read_access(&row.q_access, 8);
        // slope = (q.y - p.y) / (q.x - p.x).
        FieldOpCols::eval(builder, &q_y, &p_y, &row.slope_numerator, FieldOperation::Sub, &modulus);
        FieldOpCols::eval(
            builder,
            &q_x,
            &p_x,
            &row.slope_denominator,
            FieldOperation::Sub,
            &modulus,
        );
        FieldOpCols::eval(
            builder,
            &row.slope_numerator.result,
            &row.slope_denominator.result,
            &row.slope,
            FieldOperation::Div,
            &modulus,
        );
        // x = slope * slope - (p.x + q.x).
        FieldOpCols::eval(
            builder,
            &row.slope.result,
            &row.slope.result,
            &row.slope_squared,
            FieldOperation::Mul,
            &modulus,
        );
        FieldOpCols::eval(builder, &p_x, &q_x, &row.p_x_plus_q_x, FieldOperation::Add, &modulus);
        FieldOpCols::eval(
            builder,
            &row.slope_squared.result,
            &row.p_x_plus_q_x.result,
            &row.x3_ins,
            FieldOperation::Sub,
            &modulus,
        );
        // y = slope * (p.x - x) - p.y.
        FieldOpCols::eval(
            builder,
            &p_x,
            &row.x3_ins.result,
            &row.p_x_minus_x,
            FieldOperation::Sub,
            &modulus,
        );
        FieldOpCols::eval(
            builder,
            &row.slope.result,
            &row.p_x_minus_x.result,
            &row.slope_times_p_x_minus_x,
            FieldOperation::Mul,
            &modulus,
        );
        FieldOpCols::eval(
            builder,
            &row.slope_times_p_x_minus_x.result,
            &p_y,
            &row.y3_ins,
            FieldOperation::Sub,
            &modulus,
        );
        // The writes to `p` leave the sum.
        let stored_x = limbs_from_access(&row.p_access, 0);
        let stored_y = limbs_from_access(&row.p_access, 8);
        assert_limbs_agree(builder, &row.x3_ins.result, &stored_x, row.is_real);
        assert_limbs_agree(builder, &row.y3_ins.result, &stored_y, row.is_real);
        assert(builder.state() == old(builder).state().and(chord_relation::<B, E>(*row)));
        let clk = B::lift(row.clk);
        eval_memory_access(
            builder,
            row.shard,
            &clk,
            &B::constant(Q_PTR_REGISTER),
            &row.q_ptr_access.access.value,
            &row.q_ptr_access.access,
            row.is_real,
        );
        eval_memory_read_slice(builder, row.shard, &clk, row.q_ptr, &row.q_access, row.is_real);
        let later = B::plus(&clk, &B::constant(4));
        eval_memory_write_slice(builder, row.shard, &later, row.p_ptr, &row.p_access, row.is_real);
    }

    /// The row of `event`, or nothing where its addition has no witness; the
    /// comparisons of its accesses are appended to `new_field_events`.
    fn event_row(event: &ECAddEvent, new_field_events: &mut Vec<FieldEvent>) -> (row: Option<
        WeierstrassAddAssignCols<u32>,
    >)
        ensures
            row is Some <==> event_defined::<E>(*event),
            row matches Some(cols) ==> cols == event_row::<E>(*event) && final(new_field_events)@
                == old(new_field_events)@ + event_field_events(*event),
            row is None ==> final(new_field_events)@ == old(new_field_events)@,
    {
        let mut ops = WeierstrassAddAssignCols::zeroed();
        // Decode the affine points.
        let p_x = limbs_from_words(&event.p, 0);
        let p_y = limbs_from_words(&event.p, 8);
        let q_x = limbs_from_words(&event.q, 0);
        let q_y = limbs_from_words(&event.q, 8);
        if Self::populate_field_ops(&mut ops, &p_x, &p_y, &q_x, &q_y).is_none() {
            return None;
        }
        // Populate the memory access columns.
        let q_access = Self::read_accesses(&event.q_memory_records, new_field_events);
        let p_access = Self::write_accesses(&event.p_memory_records, new_field_events);
        let mut q_ptr_access = MemoryReadCols::zeroed();
        q_ptr_access.populate(event.q_ptr_record, new_field_events);
        let cols = WeierstrassAddAssignCols {
            is_real: 1,
            shard: event.shard,
            clk: event.clk,
            p_ptr: event.p_ptr,
            q_ptr: event.q_ptr,
            q_ptr_access,
            p_access,
            q_access,
            slope_denominator: ops.slope_denominator,
            slope_numerator: ops.slope_numerator,
            slope: ops.slope,
            slope_squared: ops.slope_squared,
            p_x_plus_q_x: ops.p_x_plus_q_x,
            x3_ins: ops.x3_ins,
            p_x_minus_x: ops.p_x_minus_x,
            y3_ins: ops.y3_ins,
            slope_times_p_x_minus_x: ops.slope_times_p_x_minus_x,
        };
        proof {
            ops.lemma_field_ops_unique(
                words_limbs(event.p, 0),
                words_limbs(event.p, 8),
                words_limbs(event.q, 0),
                words_limbs(event.q, 8),
                E::modulus_limbs().0@,
            );
            reveal(with_field_ops);
            reveal(event_row);
            reveal(event_field_events);
            assert(new_field_events@ =~= old(new_field_events)@ + event_field_events(*event));
        }
        Some(cols)
    }

    /// The row that pads the trace, or nothing where the chord through the
    /// tuple of zeros has no witness.
    fn padding_row() -> (row: Option<WeierstrassAddAssignCols<u32>>)
        ensures
            row is Some <==> padding_defined::<E>(),
            row matches Some(cols) ==> cols == padding_row::<E>(),
    {
        let mut cols = WeierstrassAddAssignCols::zeroed();
        let zero = Limbs::zero();
        assert(zero.0@ =~= zero_limbs());
        if Self::populate_field_ops(&mut cols, &zero, &zero, &zero, &zero).is_none() {
            return None;
        }
        proof {
            cols.lemma_field_ops_unique(
                zero_limbs(),
                zero_limbs(),
                zero_limbs(),
                zero_limbs(),
                E::modulus_limbs().0@,
            );
            reveal(with_field_ops);
            reveal(padding_row);
        }
        Some(cols)
    }

    /// Generates the trace of the events in `input`: one row for each event
    /// and padding rows up to the padded count, laid out row by row; and
    /// appends the comparisons that the accesses leave to `output`. Fails,
    /// and leaves `output` as it is, where the addition of an event or the
    /// padding row has no witness.
    pub fn generate_trace(&self, input: &ExecutionRecord, output: &mut ExecutionRecord) -> (trace:
        Result<RowMajorMatrix<u32>, TraceError>)
        requires
            input.weierstrass_add_events.len() <= 0x8_0000,
        ensures
            match trace {
                Ok(m) => {
                    &&& forall|i: int|
                        0 <= i < input.weierstrass_add_events.len() ==> event_defined::<E>(
                            #[trigger] input.weierstrass_add_events[i],
                        )
                    &&& padded_count(input.weierstrass_add_events.len() as nat)
                        > input.weierstrass_add_events.len() ==> padding_defined::<E>()
                    &&& matrix_width(m) == NUM_WEIERSTRASS_ADD_COLS
                    &&& matrix_values(m) == flat_rows(
                        trace_rows::<E>(input.weierstrass_add_events@),
                        padded_count(input.weierstrass_add_events.len() as nat) as int,
                    )
                    &&& final(output).field_events@ == old(output).field_events@
                        + trace_field_events(
                        input.weierstrass_add_events@,
                        input.weierstrass_add_events.len() as int,
                    )
                    &&& final(output).same_but_comparisons(*old(output))
                },
                Err(TraceError::UndefinedAddition(i)) => {
                    &&& i < input.weierstrass_add_events.len()
                    &&& !event_defined::<E>(input.weierstrass_add_events[i as int])
                    &&& forall|j: int|
                        0 <= j < i ==> event_defined::<E>(
                            #[trigger] input.weierstrass_add_events[j],
                        )
                    &&& *final(output) == *old(output)
                },
                Err(TraceError::UndefinedPadding) => {
                    &&& forall|i: int|
                        0 <= i < input.weierstrass_add_events.len() ==> event_defined::<E>(
                            #[trigger] input.weierstrass_add_events[i],
                        )
                    &&& padded_count(input.weierstrass_add_events.len() as nat)
                        > input.weierstrass_add_events.len()
                    &&& !padding_defined::<E>()
                    &&& *final(output) == *old(output)
                },
            },
    {
        let n: usize = input.weierstrass_add_events.len();
        let ghost events = input.weierstrass_add_events@;
        let mut rows: Vec<WeierstrassAddAssignCols<u32>> = Vec::new();
        let mut new_field_events: Vec<FieldEvent> = Vec::new();
        let mut i: usize = 0;
        while i < n
            invariant
                i <= n,
                n == input.weierstrass_add_events.len(),
                events == input.weierstrass_add_events@,
                rows.len() == i,
                forall|j: int| 0 <= j < i ==> #[trigger] rows[j] == event_row::<E>(events[j]),
                forall|j: int| 0 <= j < i ==> event_defined::<E>(#[trigger] events[j]),
                new_field_events@ == trace_field_events(events, i as int),
                *output == *old(output),
            decreases n - i,
        {
            match Self::event_row(&input.weierstrass_add_events[i], &mut new_field_events) {
                Some(row) => {
                    rows.push(row);
                },
                None => {
                    return Err(TraceError::UndefinedAddition(i));
                },
            }
            i += 1;
        }
        let padded: usize = crate::trace::padded_row_count(n);
        proof {
            lemma_padded_count(n as nat);
        }
        if padded > n {
            match Self::padding_row() {
                Some(row) => {
                    pad_rows(&mut rows, row);
                },
                None => {
                    return Err(TraceError::UndefinedPadding);
                },
            }
        }
        assert(rows@ =~= trace_rows::<E>(events));
        output.add_field_events(&new_field_events);
        // Lay the rows out one after the other.
        let mut values: Vec<u32> = Vec::new();
        let mut r: usize = 0;
        while r < padded
            invariant
                r <= padded,
                padded == rows.len(),
                padded <= 0x10_0000,
                values@ == flat_rows(rows@, r as int),
                values.len() == r * NUM_WEIERSTRASS_ADD_COLS,
            decreases padded - r,
        {
            rows[r].append_to(&mut values);
            r += 1;
        }
        proof {
            vstd::arithmetic::div_mod::lemma_mod_multiples_basic(
                padded as int,
                NUM_WEIERSTRASS_ADD_COLS as int,
            );
        }
        Ok(row_major(values, NUM_WEIERSTRASS_ADD_COLS))
    }

    /// Fills the columns of the nine field operations of the chord through
    /// `(p_x, p_y)` and `(q_x, q_y)` and returns the sum; or returns nothing,
    /// where a step has no witness.
    pub fn populate_field_ops(
        cols: &mut WeierstrassAddAssignCols<u32>,
        p_x: &Limbs<u8>,
        p_y: &Limbs<u8>,
        q_x: &Limbs<u8>,
        q_y: &Limbs<u8>,
    ) -> (sum: Option<(Limbs<u8>, Limbs<u8>)>)
        ensures
            sum is Some <==> add_defined(
                p_x.0@,
                p_y.0@,
                q_x.0@,
                q_y.0@,
                E::modulus_limbs().0@,
            ),
            sum matches Some((x3, y3)) ==> {
                &&& x3.0@ == add_steps(p_x.0@, p_y.0@, q_x.0@, q_y.0@, E::modulus_limbs().0@).x3
                &&& y3.0@ == add_steps(p_x.0@, p_y.0@, q_x.0@, q_y.0@, E::modulus_limbs().0@).y3
                &&& final(cols).witnesses_add(
                    p_x.0@,
                    p_y.0@,
                    q_x.0@,
                    q_y.0@,
                    E::modulus_limbs().0@,
                )
            },
            final(cols).same_accesses(*old(cols)),
    {
        proof {
            reveal(add_defined);
            reveal(add_steps);
        }
        let m = E::modulus();
        // slope = (q.y - p.y) / (q.x - p.x).
        let slope_numerator = match cols.slope_numerator.populate(
            q_y,
            p_y,
            FieldOperation::Sub,
            &m,
        ) {
            Some(r) => r,
            None => {
                return None;
            },
        };
        let slope_denominator = match cols.slope_denominator.populate(
            q_x,
            p_x,
            FieldOperation::Sub,
            &m,
        ) {
            Some(r) => r,
            None => {
                return None;
            },
        };
        proof {
            lemma_limbs_of(slope_numerator.0@);
            lemma_limbs_of(slope_denominator.0@);
        }
        let slope = match cols.slope.populate(
            &slope_numerator,
            &slope_denominator,
            FieldOperation::Div,
            &m,
        ) {
            Some(r) => r,
            None => {
                return None;
            },
        };
        proof {
            lemma_limbs_of(slope.0@);
        }
        // x = slope * slope - (p.x + q.x).
        let slope_squared = match cols.slope_squared.populate(
            &slope,
            &slope,
            FieldOperation::Mul,
            &m,
        ) {
            Some(r) => r,
            None => {
                return None;
            },
        };
        let p_x_plus_q_x = match cols.p_x_plus_q_x.populate(p_x, q_x, FieldOperation::Add, &m) {
            Some(r) => r,
            None => {
                return None;
            },
        };
        proof {
            lemma_limbs_of(slope_squared.0@);
            lemma_limbs_of(p_x_plus_q_x.0@);
        }
        let x = match cols.x3_ins.populate(&slope_squared, &p_x_plus_q_x, FieldOperation::Sub, &m) {
            Some(r) => r,
            None => {
                return None;
            },
        };
        proof {
            lemma_limbs_of(x.0@);
        }
        // y = slope * (p.x - x) - p.y.
        let p_x_minus_x = match cols.p_x_minus_x.populate(p_x, &x, FieldOperation::Sub, &m) {
            Some(r) => r,
            None => {
                return None;
            },
        };
        proof {
            lemma_limbs_of(p_x_minus_x.0@);
        }
        let slope_times_p_x_minus_x = match cols.slope_times_p_x_minus_x.populate(
            &slope,
            &p_x_minus_x,
            FieldOperation::Mul,
            &m,
        ) {
            Some(r) => r,
            None => {
                return None;
            },
        };
        proof {
            lemma_limbs_of(slope_times_p_x_minus_x.0@);
        }
        let y = match cols.y3_ins.populate(&slope_times_p_x_minus_x, p_y, FieldOperation::Sub, &m) {
            Some(r) => r,
            None => {
                return None;
            },
        };
        proof {
            lemma_limbs_of(y.0@);
        }
        Some((x, y))
    }
}

/// The shape of a trace: the number of its rows is a power of two, at least
/// four and at least the number of events; the flag `is_real` is one on the
/// rows of the events, which come first, and zero on every row after them.
pub proof fn lemma_trace_shape<E: EllipticCurve>(events: Seq<ECAddEvent>)
    ensures
        trace_rows::<E>(events).len() == padded_count(events.len()),
        is_power_of_two(trace_rows::<E>(events).len()),
        trace_rows::<E>(events).len() >= 4,
        trace_rows::<E>(events).len() >= events.len(),
        forall|i: int|
            0 <= i < events.len() ==> (#[trigger] trace_rows::<E>(events)[i]).is_real == 1,
        forall|i: int|
            events.len() <= i < trace_rows::<E>(events).len() ==> (#[trigger] trace_rows::<E>(
                events,
            )[i]).is_real == 0,
        real_rows(trace_rows::<E>(events), trace_rows::<E>(events).len() as int) == events.len(),
{
    lemma_padded_count(events.len());
    reveal(event_row);
    reveal(padding_row);
    lemma_real_rows::<E>(events, trace_rows::<E>(events).len() as int);
}

/// The number of the first `n` of `rows` whose flag `is_real` is one.
pub open spec fn real_rows(rows: Seq<WeierstrassAddAssignCols<u32>>, n: int) -> nat
    decreases n,
{
    if n <= 0 {
        0
    } else {
        real_rows(rows, n - 1) + if rows[n - 1].is_real == 1 {
            1nat
        } else {
            0nat
        }
    }
}

proof fn lemma_real_rows<E: EllipticCurve>(events: Seq<ECAddEvent>, n: int)
    requires
        0 <= n <= trace_rows::<E>(events).len(),
    ensures
        real_rows(trace_rows::<E>(events), n) == if n <= events.len() {
            n
        } else {
            events.len() as int
        },
    decreases n,
{
    reveal(event_row);
    reveal(padding_row);
    if n > 0 {
        lemma_real_rows::<E>(events, n - 1);
    }
}

/// The cells of a trace are as many as its rows times the width of a row,
/// and the cell of `is_real` is the first of each row.
pub proof fn lemma_flat_rows<E: EllipticCurve>(rows: Seq<WeierstrassAddAssignCols<u32>>, n: int)
    requires
        0 <= n <= rows.len(),
    ensures
        flat_rows(rows, n).len() == n * NUM_WEIERSTRASS_ADD_COLS,
        forall|i: int|
            0 <= i < n ==> flat_rows(rows, n)[i * NUM_WEIERSTRASS_ADD_COLS]
                == (#[trigger] rows[i]).is_real,
    decreases n,
{
    if n > 0 {
        lemma_flat_rows::<E>(rows, n - 1);
        lemma_flat_len(rows[n - 1]);
        assert forall|i: int| 0 <= i < n implies flat_rows(rows, n)[i * NUM_WEIERSTRASS_ADD_COLS]
            == (#[trigger] rows[i]).is_real by {
            if i < n - 1 {
                assert(i * NUM_WEIERSTRASS_ADD_COLS < (n - 1) * NUM_WEIERSTRASS_ADD_COLS)
                    by (nonlinear_arith)
                    requires
                        0 <= i < n - 1,
                ;
            } else {
                assert(rows[i].flat()[0] == rows[i].is_real);
            }
        }
    }
}

/// A row has as many cells as the chip has columns.
pub proof fn lemma_flat_len<T: Copy>(row: WeierstrassAddAssignCols<T>)
    ensures
        row.flat().len() == NUM_WEIERSTRASS_ADD_COLS,
{
    lemma_flat_writes_len(row.p_access@, 16);
    lemma_flat_reads_len(row.q_access@, 16);
}

proof fn lemma_flat_writes_len<T: Copy>(writes: Seq<MemoryWriteCols<T>>, n: int)
    requires
        0 <= n,
    ensures
        flat_writes(writes, n).len() == 13 * n,
    decreases n,
{
    if n > 0 {
        lemma_flat_writes_len(writes, n - 1);
    }
}

proof fn lemma_flat_reads_len<T: Copy>(reads: Seq<MemoryReadCols<T>>, n: int)
    requires
        0 <= n,
    ensures
        flat_reads(reads, n).len() == 9 * n,
    decreases n,
{
    if n > 0 {
        lemma_flat_reads_len(reads, n - 1);
    }
}

/// What the steps of a defined addition are, modulo `m`: the slope times the
/// difference of the abscissas is the difference of the ordinates; the new
/// abscissa with the sum of the old ones is the square of the slope; and the
/// new ordinate with the old one of `p` is the slope times the distance
/// from the new abscissa back to that of `p`. Every step is below `m`.
pub proof fn lemma_chord_congruences(
    p_x: Seq<u8>,
    p_y: Seq<u8>,
    q_x: Seq<u8>,
    q_y: Seq<u8>,
    m: Seq<u8>,
)
    requires
        m.len() == 32,
        add_defined(p_x, p_y, q_x, q_y, m),
    ensures
        ({
            let s = add_steps(p_x, p_y, q_x, q_y, m);
            let mv = le_value(m);
            &&& (le_value(s.slope_numerator) + le_value(p_y)) % mv == le_value(q_y)
            &&& (le_value(s.slope_denominator) + le_value(p_x)) % mv == le_value(q_x)
            &&& (le_value(s.slope) * le_value(s.slope_denominator)) % mv == le_value(
                s.slope_numerator,
            )
            &&& (le_value(s.slope) * le_value(s.slope)) % mv == le_value(s.slope_squared)
            &&& (le_value(p_x) + le_value(q_x)) % mv == le_value(s.p_x_plus_q_x)
            &&& (le_value(s.x3) + le_value(s.p_x_plus_q_x)) % mv == le_value(s.slope_squared)
            &&& (le_value(s.p_x_minus_x) + le_value(s.x3)) % mv == le_value(p_x)
            &&& (le_value(s.slope) * le_value(s.p_x_minus_x)) % mv == le_value(
                s.slope_times_p_x_minus_x,
            )
            &&& (le_value(s.y3) + le_value(p_y)) % mv == le_value(s.slope_times_p_x_minus_x)
            &&& le_value(s.x3) < mv
            &&& le_value(s.y3) < mv
        }),
{
    reveal(add_defined);
    reveal(add_steps);
    let s = add_steps(p_x, p_y, q_x, q_y, m);
    lemma_le_value_bound(m);
    lemma_step_value(q_y, p_y, m, FieldOperation::Sub);
    lemma_step_value(q_x, p_x, m, FieldOperation::Sub);
    lemma_step_value(s.slope_numerator, s.slope_denominator, m, FieldOperation::Div);
    lemma_step_value(s.slope, s.slope, m, FieldOperation::Mul);
    lemma_step_value(p_x, q_x, m, FieldOperation::Add);
    lemma_step_value(s.slope_squared, s.p_x_plus_q_x, m, FieldOperation::Sub);
    lemma_step_value(p_x, s.x3, m, FieldOperation::Sub);
    lemma_step_value(s.slope, s.p_x_minus_x, m, FieldOperation::Mul);
    lemma_step_value(s.slope_times_p_x_minus_x, p_y, m, FieldOperation::Sub);
}

/// The limbs of a defined step spell its result, which is congruent to the
/// operation on the operands.
proof fn lemma_step_value(a: Seq<u8>, b: Seq<u8>, m: Seq<u8>, op: FieldOperation)
    requires
        m.len() == 32,
        field_op_defined(a, b, m, op),
    ensures
        le_value(step(a, b, m, op)) == op_result(le_value(a), le_value(b), le_value(m), op),
        le_value(step(a, b, m, op)) < le_value(m),
        op == FieldOperation::Add ==> (le_value(a) + le_value(b)) % le_value(m) == le_value(
            step(a, b, m, op),
        ),
        op == FieldOperation::Mul ==> (le_value(a) * le_value(b)) % le_value(m) == le_value(
            step(a, b, m, op),
        ),
        op == FieldOperation::Sub ==> (le_value(step(a, b, m, op)) + le_value(b)) % le_value(m)
            == le_value(a),
        op == FieldOperation::Div ==> (le_value(step(a, b, m, op)) * le_value(b)) % le_value(m)
            == le_value(a),
{
    lemma_field_op_congruence(a, b, m, op);
    lemma_le_value_bound(m);
    lemma_limbs_exist(op_result(le_value(a), le_value(b), le_value(m), op));
}

/// A trace can be padded on every curve whose modulus is not zero: the chord
/// through the tuple of zeros has a witness, and its sum is the tuple of
/// zeros.
pub proof fn lemma_padding_defined<E: EllipticCurve>()
    requires
        le_value(E::modulus_limbs().0@) > 0,
    ensures
        padding_defined::<E>(),
        add_steps(
            zero_limbs(),
            zero_limbs(),
            zero_limbs(),
            zero_limbs(),
            E::modulus_limbs().0@,
        ).x3 == zero_limbs(),
        add_steps(
            zero_limbs(),
            zero_limbs(),
            zero_limbs(),
            zero_limbs(),
            E::modulus_limbs().0@,
        ).y3 == zero_limbs(),
{
    reveal(add_defined);
    reveal(add_steps);
    let m = E::modulus_limbs().0@;
    let z = zero_limbs();
    crate::limbs::lemma_le_value_zero(z);
    lemma_zero_step(m, FieldOperation::Sub);
    lemma_zero_step(m, FieldOperation::Div);
    lemma_zero_step(m, FieldOperation::Mul);
    lemma_zero_step(m, FieldOperation::Add);
}

/// An operation on zero and zero modulo a modulus that is not zero is
/// defined and gives zero.
proof fn lemma_zero_step(m: Seq<u8>, op: FieldOperation)
    requires
        m.len() == 32,
        le_value(m) > 0,
    ensures
        field_op_defined(zero_limbs(), zero_limbs(), m, op),
        step(zero_limbs(), zero_limbs(), m, op) == zero_limbs(),
{
    let z = zero_limbs();
    crate::limbs::lemma_le_value_zero(z);
    lemma_reduced_operands_defined(z, z, m, op);
    let mv = le_value(m);
    assert(op_result(0, 0, mv, op) == 0) by {
        lemma_small_mod(0, mv);
        vstd::arithmetic::div_mod::lemma_mod_self_0(mv as int);
        let inverse = (vstd::arithmetic::power::pow(
            0,
            crate::operations::field_op::inverse_exponent(mv),
        ) % (mv as int)) as nat;
        assert(0 * inverse == 0);
    }
    lemma_limbs_of(z);
}

/// One step of the chord on the evaluator: the columns of a defined operation
/// satisfy its identities, and their result is read as the limbs of the
/// step.
proof fn lemma_step<const P: u32>(a: Seq<u8>, b: Seq<u8>, m: Seq<u8>, op: FieldOperation)
    requires
        P > 0,
        a.len() == 32,
        b.len() == 32,
        m.len() == 32,
        field_op_defined(a, b, m, op),
    ensures
        op_holds::<RowEvaluator<P>>(
            byte_ints(a),
            byte_ints(b),
            FieldOpCols::witness(a, b, m, op),
            byte_ints(m),
            op,
        ),
        limb_values::<RowEvaluator<P>>(FieldOpCols::witness(a, b, m, op).result) == byte_ints(
            step(a, b, m, op),
        ),
        step(a, b, m, op).len() == 32,
{
    lemma_op_holds::<P>(a, b, m, op);
    lemma_evaluator_reads_limbs::<P>(FieldOpCols::witness(a, b, m, op).result);
    lemma_field_op_congruence(a, b, m, op);
    lemma_le_value_bound(m);
    lemma_limbs_exist(op_result(le_value(a), le_value(b), le_value(m), op));
}

/// The identities of the chord hold on a row whose field operations are
/// those of the chord through the points that its accesses hold, and whose
/// writes, if the row is real, leave the sum.
proof fn lemma_chord_holds<const P: u32, E: EllipticCurve>(
    row: WeierstrassAddAssignCols<u32>,
    p_x: Seq<u8>,
    p_y: Seq<u8>,
    q_x: Seq<u8>,
    q_y: Seq<u8>,
)
    requires
        P > 0,
        p_x.len() == 32,
        p_y.len() == 32,
        q_x.len() == 32,
        q_y.len() == 32,
        add_defined(p_x, p_y, q_x, q_y, E::modulus_limbs().0@),
        row == with_field_ops(row, p_x, p_y, q_x, q_y, E::modulus_limbs().0@),
        seq_values::<RowEvaluator<P>>(prev_limbs(row.p_access, 0)) == byte_ints(p_x),
        seq_values::<RowEvaluator<P>>(prev_limbs(row.p_access, 8)) == byte_ints(p_y),
        seq_values::<RowEvaluator<P>>(read_limbs(row.q_access, 0)) == byte_ints(q_x),
        seq_values::<RowEvaluator<P>>(read_limbs(row.q_access, 8)) == byte_ints(q_y),
        row.is_real == 0 || (seq_values::<RowEvaluator<P>>(written_limbs(row.p_access, 0))
            == byte_ints(add_steps(p_x, p_y, q_x, q_y, E::modulus_limbs().0@).x3)
            && seq_values::<RowEvaluator<P>>(written_limbs(row.p_access, 8)) == byte_ints(
            add_steps(p_x, p_y, q_x, q_y, E::modulus_limbs().0@).y3,
        )),
    ensures
        chord_relation::<RowEvaluator<P>, E>(row),
{
    reveal(add_defined);
    reveal(add_steps);
    reveal(with_field_ops);
    let m = E::modulus_limbs().0@;
    let s = add_steps(p_x, p_y, q_x, q_y, m);
    lemma_step::<P>(q_y, p_y, m, FieldOperation::Sub);
    lemma_step::<P>(q_x, p_x, m, FieldOperation::Sub);
    lemma_step::<P>(s.slope_numerator, s.slope_denominator, m, FieldOperation::Div);
    lemma_step::<P>(s.slope, s.slope, m, FieldOperation::Mul);
    lemma_step::<P>(p_x, q_x, m, FieldOperation::Add);
    lemma_step::<P>(s.slope_squared, s.p_x_plus_q_x, m, FieldOperation::Sub);
    lemma_step::<P>(p_x, s.x3, m, FieldOperation::Sub);
    lemma_step::<P>(s.slope, s.p_x_minus_x, m, FieldOperation::Mul);
    lemma_step::<P>(s.slope_times_p_x_minus_x, p_y, m, FieldOperation::Sub);
    let x3 = limb_values::<RowEvaluator<P>>(row.x3_ins.result);
    let y3 = limb_values::<RowEvaluator<P>>(row.y3_ins.result);
    let stored_x = seq_values::<RowEvaluator<P>>(written_limbs(row.p_access, 0));
    let stored_y = seq_values::<RowEvaluator<P>>(written_limbs(row.p_access, 8));
    lemma_small_mod(0, P as nat);
    assert forall|i: int| 0 <= i < 32 implies #[trigger] limb_agrees(
        x3,
        stored_x,
        i,
        row.is_real as int,
        P as int,
    ) && limb_agrees(y3, stored_y, i, row.is_real as int, P as int) by {
        if row.is_real == 0 {
            assert(0 * (x3[i] - stored_x[i]) == 0);
            assert(0 * (y3[i] - stored_y[i]) == 0);
        } else {
            assert(x3[i] - stored_x[i] == 0);
            assert(y3[i] - stored_y[i] == 0);
            assert(row.is_real * 0 == 0);
        }
    }
}

/// Whether `event` is one whose row a prover can complete in a field of
/// characteristic `p`: its addition has a witness; the words of `p` and `q`
/// are those that its accesses take; its writes leave the sum; its reads
/// carry the stamp of the event and its writes the stamp four cycles later;
/// and every access comes after the one it takes from.
pub open spec fn event_valid<E: EllipticCurve>(event: ECAddEvent, p: int) -> bool {
    let s = add_steps(
        words_limbs(event.p, 0),
        words_limbs(event.p, 8),
        words_limbs(event.q, 0),
        words_limbs(event.q, 8),
        E::modulus_limbs().0@,
    );
    &&& event_defined::<E>(event)
    &&& forall|i: int|
        0 <= i < 16 ==> (#[trigger] event.p_memory_records[i]).prev_value == event.p[i]
            && write_claimable(event.p_memory_records[i], event.shard, event.clk + 4, p)
    &&& forall|i: int|
        0 <= i < 16 ==> (#[trigger] event.q_memory_records[i]).value == event.q[i]
            && read_claimable(event.q_memory_records[i], event.shard, event.clk as int, p)
    &&& read_claimable(event.q_ptr_record, event.shard, event.clk as int, p)
    &&& forall|k: int|
        0 <= k < 32 ==> lane(event.p_memory_records[k / 4].value, k % 4) == #[trigger] s.x3[k]
    &&& forall|k: int|
        0 <= k < 32 ==> lane(event.p_memory_records[8 + k / 4].value, k % 4)
            == #[trigger] s.y3[k]
}

/// The columns of the row of an event outside the field operations.
proof fn lemma_event_row_accesses<E: EllipticCurve>(event: ECAddEvent)
    ensures
        event_row::<E>(event).is_real == 1,
        event_row::<E>(event).shard == event.shard,
        event_row::<E>(event).clk == event.clk,
        event_row::<E>(event).p_ptr == event.p_ptr,
        event_row::<E>(event).q_ptr == event.q_ptr,
        event_row::<E>(event).q_ptr_access == MemoryReadCols::witness(event.q_ptr_record),
        forall|i: int|
            0 <= i < 16 ==> (#[trigger] event_row::<E>(event).p_access[i])
                == MemoryWriteCols::witness(event.p_memory_records[i]),
        forall|i: int|
            0 <= i < 16 ==> (#[trigger] event_row::<E>(event).q_access[i])
                == MemoryReadCols::witness(event.q_memory_records[i]),
        event_row::<E>(event) == with_field_ops(
            event_row::<E>(event),
            words_limbs(event.p, 0),
            words_limbs(event.p, 8),
            words_limbs(event.q, 0),
            words_limbs(event.q, 8),
            E::modulus_limbs().0@,
        ),
{
    reveal(event_row);
    reveal(write_witnesses);
    reveal(read_witnesses);
    reveal(with_field_ops);
}

/// The limbs that the evaluator reads in the values that sixteen writes
/// overwrite are the limbs of the words overwritten.
proof fn lemma_prev_limbs_read<const P: u32>(
    writes: [MemoryWriteCols<u32>; 16],
    records: [MemoryWriteRecord; 16],
    words: [u32; 16],
    first: int,
)
    requires
        first == 0 || first == 8,
        forall|i: int|
            0 <= i < 16 ==> (#[trigger] writes[i]) == MemoryWriteCols::witness(records[i]),
        forall|i: int| 0 <= i < 16 ==> (#[trigger] records[i]).prev_value == words[i],
    ensures
        seq_values::<RowEvaluator<P>>(prev_limbs(writes, first)) == byte_ints(
            words_limbs(words, first),
        ),
{
    assert forall|k: int| 0 <= k < 32 implies seq_values::<RowEvaluator<P>>(
        prev_limbs(writes, first),
    )[k] == byte_ints(words_limbs(words, first))[k] by {
        let i = first + k / 4;
        lemma_lanes(words[i]);
        assert(writes[i] == MemoryWriteCols::witness(records[i]));
        assert(records[i].prev_value == words[i]);
    }
    assert(seq_values::<RowEvaluator<P>>(prev_limbs(writes, first)) =~= byte_ints(
        words_limbs(words, first),
    ));
}

/// The limbs that the evaluator reads in the values of sixteen reads are the
/// limbs of the words read.
proof fn lemma_read_limbs_read<const P: u32>(
    reads: [MemoryReadCols<u32>; 16],
    records: [MemoryReadRecord; 16],
    words: [u32; 16],
    first: int,
)
    requires
        first == 0 || first == 8,
        forall|i: int| 0 <= i < 16 ==> (#[trigger] reads[i]) == MemoryReadCols::witness(records[i]),
        forall|i: int| 0 <= i < 16 ==> (#[trigger] records[i]).value == words[i],
    ensures
        seq_values::<RowEvaluator<P>>(read_limbs(reads, first)) == byte_ints(
            words_limbs(words, first),
        ),
{
    assert forall|k: int| 0 <= k < 32 implies seq_values::<RowEvaluator<P>>(
        read_limbs(reads, first),
    )[k] == byte_ints(words_limbs(words, first))[k] by {
        let i = first + k / 4;
        lemma_lanes(words[i]);
        assert(reads[i] == MemoryReadCols::witness(records[i]));
        assert(records[i].value == words[i]);
    }
    assert(seq_values::<RowEvaluator<P>>(read_limbs(reads, first)) =~= byte_ints(
        words_limbs(words, first),
    ));
}

/// The limbs that the evaluator reads in the values that sixteen writes leave
/// are the limbs `sum`, where the words written spell them.
proof fn lemma_written_limbs_read<const P: u32>(
    writes: [MemoryWriteCols<u32>; 16],
    records: [MemoryWriteRecord; 16],
    sum: Seq<u8>,
    first: int,
)
    requires
        first == 0 || first == 8,
        sum.len() == 32,
        forall|i: int|
            0 <= i < 16 ==> (#[trigger] writes[i]) == MemoryWriteCols::witness(records[i]),
        forall|k: int|
            0 <= k < 32 ==> lane(records[first + k / 4].value, k % 4) == #[trigger] sum[k],
    ensures
        seq_values::<RowEvaluator<P>>(written_limbs(writes, first)) == byte_ints(sum),
{
    assert forall|k: int| 0 <= k < 32 implies seq_values::<RowEvaluator<P>>(
        written_limbs(writes, first),
    )[k] == byte_ints(sum)[k] by {
        let i = first + k / 4;
        lemma_lanes(records[i].value);
        assert(writes[i] == MemoryWriteCols::witness(records[i]));
        assert(lane(records[i].value, k % 4) == sum[k]);
    }
    assert(seq_values::<RowEvaluator<P>>(written_limbs(writes, first)) =~= byte_ints(sum));
}

/// The identities of the chord hold on the row of a valid event.
proof fn lemma_event_chord_holds<const P: u32, E: EllipticCurve>(event: ECAddEvent)
    requires
        P > 0,
        event_valid::<E>(event, P as int),
    ensures
        chord_relation::<RowEvaluator<P>, E>(event_row::<E>(event)),
{
    let row = event_row::<E>(event);
    let p_x = words_limbs(event.p, 0);
    let p_y = words_limbs(event.p, 8);
    let q_x = words_limbs(event.q, 0);
    let q_y = words_limbs(event.q, 8);
    let s = add_steps(p_x, p_y, q_x, q_y, E::modulus_limbs().0@);
    lemma_event_row_accesses::<E>(event);
    lemma_prev_limbs_read::<P>(row.p_access, event.p_memory_records, event.p, 0);
    lemma_prev_limbs_read::<P>(row.p_access, event.p_memory_records, event.p, 8);
    lemma_read_limbs_read::<P>(row.q_access, event.q_memory_records, event.q, 0);
    lemma_read_limbs_read::<P>(row.q_access, event.q_memory_records, event.q, 8);
    lemma_sum_has_limbs::<E>(p_x, p_y, q_x, q_y);
    lemma_written_limbs_read::<P>(row.p_access, event.p_memory_records, s.x3, 0);
    lemma_written_limbs_read::<P>(row.p_access, event.p_memory_records, s.y3, 8);
    lemma_chord_holds::<P, E>(row, p_x, p_y, q_x, q_y);
}

/// Witness and constraints agree on the row of an event: the evaluator finds
/// every identity of the row of a valid event satisfied.
pub proof fn lemma_event_row_satisfies<const P: u32, E: EllipticCurve>(
    event: ECAddEvent,
    before: BuilderState,
)
    requires
        P > 0,
        event_valid::<E>(event, P as int),
    ensures
        add_row_state::<RowEvaluator<P>, E>(before, event_row::<E>(event)).satisfied
            == before.satisfied,
{
    let row = event_row::<E>(event);
    lemma_event_row_accesses::<E>(event);
    lemma_event_chord_holds::<P, E>(event);
    let s0 = before.and(chord_relation::<RowEvaluator<P>, E>(row));
    let r = event.q_ptr_record;
    lemma_access_witness_satisfies(
        r.value,
        r.shard,
        r.timestamp,
        r.prev_shard,
        r.prev_timestamp,
        1,
        P as int,
    );
    let s1 = access_state(
        s0,
        event.shard as int,
        event.clk as int,
        Q_PTR_REGISTER as int,
        word_values::<RowEvaluator<P>>(row.q_ptr_access.access.value),
        word_values::<RowEvaluator<P>>(row.q_ptr_access.access.value),
        access_values::<RowEvaluator<P>>(row.q_ptr_access.access),
        1,
        P as int,
    );
    assert(s1.satisfied == before.satisfied);
    lemma_reads_satisfied::<P>(
        s1,
        event.shard,
        event.clk as int,
        event.q_ptr as int,
        event.q_memory_records@,
        row.q_access@,
        1,
        16,
    );
    let s2 = reads_state::<RowEvaluator<P>>(
        s1,
        event.shard as int,
        event.clk as int,
        event.q_ptr as int,
        row.q_access@,
        1,
        16,
    );
    lemma_writes_satisfied::<P>(
        s2,
        event.shard,
        event.clk + 4,
        event.p_ptr as int,
        event.p_memory_records@,
        row.p_access@,
        1,
        16,
    );
}

/// Witness and constraints agree on every row of a trace: where the events
/// are valid and the modulus of the curve is not zero, the evaluator finds
/// every identity of every row, the padding rows too, satisfied.
pub proof fn lemma_trace_satisfies<const P: u32, E: EllipticCurve>(
    events: Seq<ECAddEvent>,
    r: int,
    before: BuilderState,
)
    requires
        P > 0,
        le_value(E::modulus_limbs().0@) > 0,
        0 <= r < trace_rows::<E>(events).len(),
        forall|i: int| 0 <= i < events.len() ==> event_valid::<E>(#[trigger] events[i], P as int),
    ensures
        add_row_state::<RowEvaluator<P>, E>(before, trace_rows::<E>(events)[r]).satisfied
            == before.satisfied,
{
    if r < events.len() {
        lemma_event_row_satisfies::<P, E>(events[r], before);
    } else {
        lemma_padding_defined::<E>();
        lemma_padding_row_satisfies::<P, E>(before);
    }
}

/// The sum of a defined addition has thirty-two limbs in each coordinate.
proof fn lemma_sum_has_limbs<E: EllipticCurve>(
    p_x: Seq<u8>,
    p_y: Seq<u8>,
    q_x: Seq<u8>,
    q_y: Seq<u8>,
)
    requires
        add_defined(p_x, p_y, q_x, q_y, E::modulus_limbs().0@),
    ensures
        add_steps(p_x, p_y, q_x, q_y, E::modulus_limbs().0@).x3.len() == 32,
        add_steps(p_x, p_y, q_x, q_y, E::modulus_limbs().0@).y3.len() == 32,
{
    reveal(add_defined);
    reveal(add_steps);
    let m = E::modulus_limbs().0@;
    let s = add_steps(p_x, p_y, q_x, q_y, m);
    lemma_le_value_bound(m);
    lemma_field_op_congruence(s.slope_squared, s.p_x_plus_q_x, m, FieldOperation::Sub);
    lemma_limbs_exist(
        op_result(
            le_value(s.slope_squared),
            le_value(s.p_x_plus_q_x),
            le_value(m),
            FieldOperation::Sub,
        ),
    );
    lemma_field_op_congruence(s.slope_times_p_x_minus_x, p_y, m, FieldOperation::Sub);
    lemma_limbs_exist(
        op_result(
            le_value(s.slope_times_p_x_minus_x),
            le_value(p_y),
            le_value(m),
            FieldOperation::Sub,
        ),
    );
}

/// Witness and constraints agree on a padding row: the evaluator finds every
/// identity of the padding row satisfied.
pub proof fn lemma_padding_row_satisfies<const P: u32, E: EllipticCurve>(before: BuilderState)
    requires
        P > 0,
        padding_defined::<E>(),
    ensures
        add_row_state::<RowEvaluator<P>, E>(before, padding_row::<E>()).satisfied
            == before.satisfied,
{
    let row = padding_row::<E>();
    let m = E::modulus_limbs().0@;
    let z = zero_limbs();
    reveal(padding_row);
    reveal(zero_writes);
    reveal(zero_reads);
    assert(row == with_field_ops(row, z, z, z, z, m)) by {
        reveal(with_field_ops);
    }
    lemma_lanes(0);
    assert(seq_values::<RowEvaluator<P>>(prev_limbs(row.p_access, 0)) =~= byte_ints(z));
    assert(seq_values::<RowEvaluator<P>>(prev_limbs(row.p_access, 8)) =~= byte_ints(z));
    assert(seq_values::<RowEvaluator<P>>(read_limbs(row.q_access, 0)) =~= byte_ints(z));
    assert(seq_values::<RowEvaluator<P>>(read_limbs(row.q_access, 8)) =~= byte_ints(z));
    lemma_chord_holds::<P, E>(row, z, z, z, z);
    let s0 = before.and(chord_relation::<RowEvaluator<P>, E>(row));
    lemma_access_unconstrained(
        0,
        0,
        access_values::<RowEvaluator<P>>(row.q_ptr_access.access),
        P as int,
    );
    let s1 = access_state(
        s0,
        0,
        0,
        Q_PTR_REGISTER as int,
        word_values::<RowEvaluator<P>>(row.q_ptr_access.access.value),
        word_values::<RowEvaluator<P>>(row.q_ptr_access.access.value),
        access_values::<RowEvaluator<P>>(row.q_ptr_access.access),
        0,
        P as int,
    );
    assert(s1.satisfied == before.satisfied);
    lemma_reads_unconstrained::<P>(s1, 0, 0, 0, row.q_access@, 16);
    let s2 = reads_state::<RowEvaluator<P>>(s1, 0, 0, 0, row.q_access@, 0, 16);
    lemma_writes_unconstrained::<P>(s2, 0, 4, 0, row.p_access@, 16);
}

} // verus!
