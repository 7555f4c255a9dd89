//! Extension of the message schedule: from the sixteen words of a block to
//! the sixty-four words that the rounds of the compression consume.
//!
//! Word `i`, for `i` from sixteen to sixty-three, is
//!
//! ```text
//! s0   = (w[i-15] >>> 7) ^ (w[i-15] >>> 18) ^ (w[i-15] >> 3)
//! s1   = (w[i-2] >>> 17) ^ (w[i-2] >>> 19) ^ (w[i-2] >> 10)
//! w[i] = w[i-16] + s0 + w[i-7] + s1
//! ```
//!
//! One row computes one word.

pub mod air;
pub mod trace;

use vstd::prelude::*;
use crate::memory::{MemoryReadCols, MemoryReadRecord, MemoryWriteCols, MemoryWriteRecord};
use crate::operations::add4::{Add4Operation, wrapping_sum4};
use crate::operations::rotate_right::{FixedRotateRightOperation, rotr};
use crate::operations::shift_right::{FixedShiftRightOperation, shr};
use crate::operations::xor::XorOperation;

verus! {

/// Number of words that one event extends the schedule by.
pub const NUM_ROUNDS: usize = 48;

/// Number of columns of one row.
pub const NUM_SHA_EXTEND_COLS: usize = 171;

/// One extension of a message schedule as the machine executed it: for each
/// of the forty-eight new words, the four reads and the write.
#[derive(Clone, Copy, Debug)]
pub struct ShaExtendEvent {
    pub shard: u32,
    pub clk: u32,
    pub w_ptr: u32,
    pub w_i_minus_15_reads: [MemoryReadRecord; 48],
    pub w_i_minus_2_reads: [MemoryReadRecord; 48],
    pub w_i_minus_16_reads: [MemoryReadRecord; 48],
    pub w_i_minus_7_reads: [MemoryReadRecord; 48],
    pub w_i_writes: [MemoryWriteRecord; 48],
}

/// Columns of one round.
#[derive(Clone, Copy, Debug)]
pub struct ShaExtendCols<T> {
    pub shard: T,
    pub clk: T,
    pub w_ptr: T,
    /// The index of the word that the row computes, sixteen to sixty-three.
    pub i: T,
    /// Which third of the forty-eight rounds the row is in.
    pub cycle_48: [T; 3],
    /// Whether the row is the first of its forty-eight.
    pub cycle_48_start: T,
    /// Whether the row is the last of its forty-eight.
    pub cycle_48_end: T,
    pub w_i_minus_15: MemoryReadCols<T>,
    pub w_i_minus_15_rr_7: FixedRotateRightOperation<T>,
    pub w_i_minus_15_rr_18: FixedRotateRightOperation<T>,
    pub w_i_minus_15_rs_3: FixedShiftRightOperation<T>,
    pub s0_intermediate: XorOperation<T>,
    pub s0: XorOperation<T>,
    pub w_i_minus_2: MemoryReadCols<T>,
    pub w_i_minus_2_rr_17: FixedRotateRightOperation<T>,
    pub w_i_minus_2_rr_19: FixedRotateRightOperation<T>,
    pub w_i_minus_2_rs_10: FixedShiftRightOperation<T>,
    pub s1_intermediate: XorOperation<T>,
    pub s1: XorOperation<T>,
    pub w_i_minus_16: MemoryReadCols<T>,
    pub w_i_minus_7: MemoryReadCols<T>,
    pub s2: Add4Operation<T>,
    pub w_i: MemoryWriteCols<T>,
    pub is_real: T,
}

/// The chip that extends message schedules.
#[derive(Clone, Copy, Debug)]
pub struct ShaExtendChip;

/// The first mixing function of the schedule.
pub open spec fn small_sigma_0(w: u32) -> u32 {
    (rotr(w, 7) ^ rotr(w, 18)) ^ shr(w, 3)
}

/// The second mixing function of the schedule.
pub open spec fn small_sigma_1(w: u32) -> u32 {
    (rotr(w, 17) ^ rotr(w, 19)) ^ shr(w, 10)
}

/// The word of the schedule that follows from the words sixteen, fifteen,
/// seven and two places before it.
pub open spec fn extended_word(w_16: u32, w_15: u32, w_7: u32, w_2: u32) -> u32 {
    wrapping_sum4(w_16, small_sigma_0(w_15), w_7, small_sigma_1(w_2))
}

/// The index of the word that row `row` of a trace computes.
pub open spec fn round_index(row: int) -> int {
    16 + row % 48
}

impl<T: Copy> ShaExtendCols<T> {
    /// The cells of the columns in the order of a row: the fields in the
    /// order of their declaration.
    pub open spec fn flat(self) -> Seq<T> {
        seq![self.shard, self.clk, self.w_ptr, self.i] + self.cycle_48@ + seq![
            self.cycle_48_start,
            self.cycle_48_end,
        ] + self.w_i_minus_15.flat() + self.w_i_minus_15_rr_7.flat()
            + self.w_i_minus_15_rr_18.flat() + self.w_i_minus_15_rs_3.flat()
            + self.s0_intermediate.flat() + self.s0.flat() + self.w_i_minus_2.flat()
            + self.w_i_minus_2_rr_17.flat() + self.w_i_minus_2_rr_19.flat()
            + self.w_i_minus_2_rs_10.flat() + self.s1_intermediate.flat() + self.s1.flat()
            + self.w_i_minus_16.flat() + self.w_i_minus_7.flat() + self.s2.flat()
            + self.w_i.flat() + seq![self.is_real]
    }

    /// The columns whose cells are the cells of `row`.
    pub fn from_row(row: &[T]) -> (cols: Self)
        requires
            row.len() == NUM_SHA_EXTEND_COLS,
        ensures
            cols.flat() == row@,
    {
        let cols = ShaExtendCols {
            shard: row[0],
            clk: row[1],
            w_ptr: row[2],
            i: row[3],
            cycle_48: crate::trace::read_array(row, 4),
            cycle_48_start: row[7],
            cycle_48_end: row[8],
            w_i_minus_15: MemoryReadCols::from_row(row, 9),
            w_i_minus_15_rr_7: FixedRotateRightOperation::from_row(row, 18),
            w_i_minus_15_rr_18: FixedRotateRightOperation::from_row(row, 30),
            w_i_minus_15_rs_3: FixedShiftRightOperation::from_row(row, 42),
            s0_intermediate: XorOperation::from_row(row, 54),
            s0: XorOperation::from_row(row, 58),
            w_i_minus_2: MemoryReadCols::from_row(row, 62),
            w_i_minus_2_rr_17: FixedRotateRightOperation::from_row(row, 71),
            w_i_minus_2_rr_19: FixedRotateRightOperation::from_row(row, 83),
            w_i_minus_2_rs_10: FixedShiftRightOperation::from_row(row, 95),
            s1_intermediate: XorOperation::from_row(row, 107),
            s1: XorOperation::from_row(row, 111),
            w_i_minus_16: MemoryReadCols::from_row(row, 115),
            w_i_minus_7: MemoryReadCols::from_row(row, 124),
            s2: Add4Operation::from_row(row, 133),
            w_i: MemoryWriteCols::from_row(row, 157),
            is_real: row[170],
        };
        assert(cols.flat() =~= row@);
        cols
    }

    /// Appends the cells of the columns to `row`.
    pub fn append_to(&self, row: &mut Vec<T>)
        ensures
            final(row)@ == old(row)@ + self.flat(),
            self.flat().len() == NUM_SHA_EXTEND_COLS,
    {
        row.push(self.shard);
        row.push(self.clk);
        row.push(self.w_ptr);
        row.push(self.i);
        crate::trace::append_array(&self.cycle_48, row);
        row.push(self.cycle_48_start);
        row.push(self.cycle_48_end);
        assert(row@ =~= old(row)@ + (seq![self.shard, self.clk, self.w_ptr, self.i]
            + self.cycle_48@ + seq![self.cycle_48_start, self.cycle_48_end]));
        self.w_i_minus_15.append_to(row);
        self.w_i_minus_15_rr_7.append_to(row);
        self.w_i_minus_15_rr_18.append_to(row);
        self.w_i_minus_15_rs_3.append_to(row);
        self.s0_intermediate.append_to(row);
        self.s0.append_to(row);
        self.w_i_minus_2.append_to(row);
        self.w_i_minus_2_rr_17.append_to(row);
        self.w_i_minus_2_rr_19.append_to(row);
        self.w_i_minus_2_rs_10.append_to(row);
        self.s1_intermediate.append_to(row);
        self.s1.append_to(row);
        self.w_i_minus_16.append_to(row);
        self.w_i_minus_7.append_to(row);
        self.s2.append_to(row);
        self.w_i.append_to(row);
        row.push(self.is_real);
        assert(row@ =~= old(row)@ + self.flat());
    }
}

impl ShaExtendCols<u32> {
    /// Whether the flags are those of row `row` of a trace.
    pub open spec fn has_flags(self, row: int) -> bool {
        let j = round_index(row);
        &&& self.i == j
        &&& self.cycle_48[0] == (if 16 <= j < 32 {
            1u32
        } else {
            0u32
        })
        &&& self.cycle_48[1] == (if 32 <= j < 48 {
            1u32
        } else {
            0u32
        })
        &&& self.cycle_48[2] == (if 48 <= j < 64 {
            1u32
        } else {
            0u32
        })
        &&& self.cycle_48_start == (if j == 16 {
            1u32
        } else {
            0u32
        })
        &&& self.cycle_48_end == (if j == 63 {
            1u32
        } else {
            0u32
        })
    }

    /// Sets the flags that say which round row `i` of a trace computes, and
    /// leaves the other columns.
    pub fn populate_flags(&mut self, i: usize)
        ensures
            final(self).has_flags(i as int),
            *final(self) == (ShaExtendCols {
                i: final(self).i,
                cycle_48: final(self).cycle_48,
                cycle_48_start: final(self).cycle_48_start,
                cycle_48_end: final(self).cycle_48_end,
                ..*old(self)
            }),
    {
        let j: usize = 16 + (i % 48);
        self.i = j as u32;
        self.cycle_48 = [
            if 16 <= j && j < 32 {
                1
            } else {
                0
            },
            if 32 <= j && j < 48 {
                1
            } else {
                0
            },
            if 48 <= j && j < 64 {
                1
            } else {
                0
            },
        ];
        self.cycle_48_start = if j == 16 {
            1
        } else {
            0
        };
        self.cycle_48_end = if j == 63 {
            1
        } else {
            0
        };
    }

    /// Columns of zeros.
    pub fn zeroed() -> (cols: Self)
        ensures
            cols == Self::zero(),
    {
        let cols = ShaExtendCols {
            shard: 0,
            clk: 0,
            w_ptr: 0,
            i: 0,
            cycle_48: [0, 0, 0],
            cycle_48_start: 0,
            cycle_48_end: 0,
            w_i_minus_15: MemoryReadCols::zeroed(),
            w_i_minus_15_rr_7: FixedRotateRightOperation::default(),
            w_i_minus_15_rr_18: FixedRotateRightOperation::default(),
            w_i_minus_15_rs_3: FixedShiftRightOperation::default(),
            s0_intermediate: XorOperation::default(),
            s0: XorOperation::default(),
            w_i_minus_2: MemoryReadCols::zeroed(),
            w_i_minus_2_rr_17: FixedRotateRightOperation::default(),
            w_i_minus_2_rr_19: FixedRotateRightOperation::default(),
            w_i_minus_2_rs_10: FixedShiftRightOperation::default(),
            s1_intermediate: XorOperation::default(),
            s1: XorOperation::default(),
            w_i_minus_16: MemoryReadCols::zeroed(),
            w_i_minus_7: MemoryReadCols::zeroed(),
            s2: Add4Operation::zeroed(),
            w_i: MemoryWriteCols::zeroed(),
            is_real: 0,
        };
        proof {
            assert(cols.cycle_48 =~= Self::zero().cycle_48);
        }
        cols
    }

    /// Columns of zeros.
    pub open spec fn zero() -> Self {
        ShaExtendCols {
            shard: 0,
            clk: 0,
            w_ptr: 0,
            i: 0,
            cycle_48: [0u32, 0u32, 0u32],
            cycle_48_start: 0,
            cycle_48_end: 0,
            w_i_minus_15: MemoryReadCols::zero(),
            w_i_minus_15_rr_7: FixedRotateRightOperation::witness(0, 7),
            w_i_minus_15_rr_18: FixedRotateRightOperation::witness(0, 18),
            w_i_minus_15_rs_3: FixedShiftRightOperation::witness(0, 3),
            s0_intermediate: XorOperation::witness(0, 0),
            s0: XorOperation::witness(0, 0),
            w_i_minus_2: MemoryReadCols::zero(),
            w_i_minus_2_rr_17: FixedRotateRightOperation::witness(0, 17),
            w_i_minus_2_rr_19: FixedRotateRightOperation::witness(0, 19),
            w_i_minus_2_rs_10: FixedShiftRightOperation::witness(0, 10),
            s1_intermediate: XorOperation::witness(0, 0),
            s1: XorOperation::witness(0, 0),
            w_i_minus_16: MemoryReadCols::zero(),
            w_i_minus_7: MemoryReadCols::zero(),
            s2: Add4Operation::zero(),
            w_i: MemoryWriteCols::zero(),
            is_real: 0,
        }
    }
}

} // verus!
