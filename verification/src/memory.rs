//! Memory accesses of a row: the columns that hold an access, and the
//! constraints that tie it to the argument which orders all accesses.
//!
//! An access takes the state that the last access to its address left (a
//! value stamped with a shard and a clock) and leaves a new one. The row
//! proves that its own stamp is later than the one it takes; that every state
//! taken was once left is the memory argument's to prove, and the row only
//! tells it what it takes and what it leaves.

use vstd::prelude::*;
use crate::builder::{
    ConstraintBuilder, BuilderState, MemoryObligation, vanishes, field_lt_holds, word_values,
    assert_bool, assert_zero_when,
};
use crate::evaluator::RowEvaluator;
use crate::record::FieldEvent;
use crate::trace::{append_array, read_array};
use crate::word::{Word, word_of};
use vstd::arithmetic::div_mod::lemma_small_mod;

verus! {

/// One read of a word of memory: what was read, when, and when the word was
/// last touched.
#[derive(Clone, Copy, Debug, PartialEq, Eq, Structural)]
pub struct MemoryReadRecord {
    pub value: u32,
    pub shard: u32,
    pub timestamp: u32,
    pub prev_shard: u32,
    pub prev_timestamp: u32,
}

/// One write of a word of memory: what was written over what, when, and when
/// the word was last touched.
#[derive(Clone, Copy, Debug, PartialEq, Eq, Structural)]
pub struct MemoryWriteRecord {
    pub value: u32,
    pub shard: u32,
    pub timestamp: u32,
    pub prev_value: u32,
    pub prev_shard: u32,
    pub prev_timestamp: u32,
}

/// Columns of one access: the value it leaves, the stamp it takes, and what
/// proves that its own stamp is later: whether the shards are equal, so that
/// the clocks decide, and the two times to compare.
#[derive(Clone, Copy, Debug)]
pub struct MemoryAccessCols<T> {
    pub value: Word<T>,
    pub prev_shard: T,
    pub prev_clk: T,
    pub use_clk_comparison: T,
    pub prev_time_value: T,
    pub current_time_value: T,
}

/// Columns of one read.
#[derive(Clone, Copy, Debug)]
pub struct MemoryReadCols<T> {
    pub access: MemoryAccessCols<T>,
}

/// Columns of one write: the access and the value it overwrites.
#[derive(Clone, Copy, Debug)]
pub struct MemoryWriteCols<T> {
    pub prev_value: Word<T>,
    pub access: MemoryAccessCols<T>,
}

impl<T: Copy> MemoryAccessCols<T> {
    /// The cells of the columns in the order of a row.
    pub open spec fn flat(self) -> Seq<T> {
        self.value.0@ + seq![
            self.prev_shard,
            self.prev_clk,
            self.use_clk_comparison,
            self.prev_time_value,
            self.current_time_value,
        ]
    }

    /// The columns whose cells are the nine cells of `row` from `start` on.
    pub fn from_row(row: &[T], start: usize) -> (cols: Self)
        requires
            start + 9 <= row.len(),
        ensures
            cols.flat() == row@.subrange(start as int, start + 9),
    {
        let cols = MemoryAccessCols {
            value: Word(read_array(row, start)),
            prev_shard: row[start + 4],
            prev_clk: row[start + 5],
            use_clk_comparison: row[start + 6],
            prev_time_value: row[start + 7],
            current_time_value: row[start + 8],
        };
        assert(cols.flat() =~= row@.subrange(start as int, start + 9));
        cols
    }

    /// Appends the cells of the columns to `row`.
    pub fn append_to(&self, row: &mut Vec<T>)
        ensures
            final(row)@ == old(row)@ + self.flat(),
            self.flat().len() == 9,
    {
        append_array(&self.value.0, row);
        row.push(self.prev_shard);
        row.push(self.prev_clk);
        row.push(self.use_clk_comparison);
        row.push(self.prev_time_value);
        row.push(self.current_time_value);
        assert(row@ =~= old(row)@ + self.flat());
    }
}

impl<T: Copy> MemoryReadCols<T> {
    /// The cells of the columns in the order of a row.
    pub open spec fn flat(self) -> Seq<T> {
        self.access.flat()
    }

    /// The columns whose cells are the nine cells of `row` from `start` on.
    pub fn from_row(row: &[T], start: usize) -> (cols: Self)
        requires
            start + 9 <= row.len(),
        ensures
            cols.flat() == row@.subrange(start as int, start + 9),
    {
        MemoryReadCols { access: MemoryAccessCols::from_row(row, start) }
    }

    /// Appends the cells of the columns to `row`.
    pub fn append_to(&self, row: &mut Vec<T>)
        ensures
            final(row)@ == old(row)@ + self.flat(),
            self.flat().len() == 9,
    {
        self.access.append_to(row);
    }
}

impl<T: Copy> MemoryWriteCols<T> {
    /// The cells of the columns in the order of a row.
    pub open spec fn flat(self) -> Seq<T> {
        self.prev_value.0@ + self.access.flat()
    }

    /// The columns whose cells are the thirteen cells of `row` from `start`
    /// on.
    pub fn from_row(row: &[T], start: usize) -> (cols: Self)
        requires
            start + 13 <= row.len(),
        ensures
            cols.flat() == row@.subrange(start as int, start + 13),
    {
        let cols = MemoryWriteCols {
            prev_value: Word(read_array(row, start)),
            access: MemoryAccessCols::from_row(row, start + 4),
        };
        assert(cols.flat() =~= row@.subrange(start as int, start + 13));
        cols
    }

    /// Appends the cells of the columns to `row`.
    pub fn append_to(&self, row: &mut Vec<T>)
        ensures
            final(row)@ == old(row)@ + self.flat(),
            self.flat().len() == 13,
    {
        append_array(&self.prev_value.0, row);
        self.access.append_to(row);
        assert(row@ =~= old(row)@ + self.flat());
    }
}

/// The columns of an access that leaves `value` at (`shard`, `timestamp`)
/// after the access at (`prev_shard`, `prev_timestamp`).
pub open spec fn access_witness(
    value: u32,
    shard: u32,
    timestamp: u32,
    prev_shard: u32,
    prev_timestamp: u32,
) -> MemoryAccessCols<u32> {
    MemoryAccessCols {
        value: word_of(value),
        prev_shard,
        prev_clk: prev_timestamp,
        use_clk_comparison: if shard == prev_shard {
            1
        } else {
            0
        },
        prev_time_value: if shard == prev_shard {
            prev_timestamp
        } else {
            prev_shard
        },
        current_time_value: if shard == prev_shard {
            timestamp
        } else {
            shard
        },
    }
}

/// The comparison that an access leaves for the chip that checks order.
pub open spec fn access_event(
    shard: u32,
    timestamp: u32,
    prev_shard: u32,
    prev_timestamp: u32,
) -> FieldEvent {
    FieldEvent {
        ltu: true,
        b: if shard == prev_shard {
            prev_timestamp
        } else {
            prev_shard
        },
        c: if shard == prev_shard {
            timestamp
        } else {
            shard
        },
    }
}

/// Whether an access at (`shard`, `timestamp`) comes after the one at
/// (`prev_shard`, `prev_timestamp`).
pub open spec fn access_ordered(
    shard: u32,
    timestamp: u32,
    prev_shard: u32,
    prev_timestamp: u32,
) -> bool {
    prev_shard < shard || (prev_shard == shard && prev_timestamp < timestamp)
}

impl MemoryAccessCols<u32> {
    fn fill(value: u32, shard: u32, timestamp: u32, prev_shard: u32, prev_timestamp: u32) -> (r: (
        Self,
        FieldEvent,
    ))
        ensures
            r.0 == access_witness(value, shard, timestamp, prev_shard, prev_timestamp),
            r.1 == access_event(shard, timestamp, prev_shard, prev_timestamp),
    {
        let same: bool = shard == prev_shard;
        let prev_time: u32 = if same {
            prev_timestamp
        } else {
            prev_shard
        };
        let current_time: u32 = if same {
            timestamp
        } else {
            shard
        };
        (
            MemoryAccessCols {
                value: Word::from_u32(value),
                prev_shard,
                prev_clk: prev_timestamp,
                use_clk_comparison: if same {
                    1
                } else {
                    0
                },
                prev_time_value: prev_time,
                current_time_value: current_time,
            },
            FieldEvent { ltu: true, b: prev_time, c: current_time },
        )
    }
}

impl MemoryReadCols<u32> {
    /// Columns of zeros.
    pub open spec fn zero() -> MemoryReadCols<u32> {
        MemoryReadCols {
            access: MemoryAccessCols {
                value: word_of(0),
                prev_shard: 0,
                prev_clk: 0,
                use_clk_comparison: 0,
                prev_time_value: 0,
                current_time_value: 0,
            },
        }
    }

    /// Columns of zeros.
    pub fn zeroed() -> (cols: Self)
        ensures
            cols == Self::zero(),
    {
        MemoryReadCols {
            access: MemoryAccessCols {
                value: Word::default(),
                prev_shard: 0,
                prev_clk: 0,
                use_clk_comparison: 0,
                prev_time_value: 0,
                current_time_value: 0,
            },
        }
    }

    /// The columns of the read `record`.
    pub open spec fn witness(record: MemoryReadRecord) -> MemoryReadCols<u32> {
        MemoryReadCols {
            access: access_witness(
                record.value,
                record.shard,
                record.timestamp,
                record.prev_shard,
                record.prev_timestamp,
            ),
        }
    }

    /// Fills the columns for `record` and appends the comparison of its
    /// stamps to `new_field_events`.
    pub fn populate(&mut self, record: MemoryReadRecord, new_field_events: &mut Vec<FieldEvent>)
        ensures
            *final(self) == Self::witness(record),
            final(new_field_events)@ == old(new_field_events)@.push(
                access_event(
                    record.shard,
                    record.timestamp,
                    record.prev_shard,
                    record.prev_timestamp,
                ),
            ),
    {
        let (access, event) = MemoryAccessCols::fill(
            record.value,
            record.shard,
            record.timestamp,
            record.prev_shard,
            record.prev_timestamp,
        );
        self.access = access;
        new_field_events.push(event);
    }
}

impl MemoryWriteCols<u32> {
    /// Columns of zeros.
    pub open spec fn zero() -> MemoryWriteCols<u32> {
        MemoryWriteCols { prev_value: word_of(0), access: MemoryReadCols::zero().access }
    }

    /// Columns of zeros.
    pub fn zeroed() -> (cols: Self)
        ensures
            cols == Self::zero(),
    {
        MemoryWriteCols { prev_value: Word::default(), access: MemoryReadCols::zeroed().access }
    }

    /// The columns of the write `record`.
    pub open spec fn witness(record: MemoryWriteRecord) -> MemoryWriteCols<u32> {
        MemoryWriteCols {
            prev_value: word_of(record.prev_value),
            access: access_witness(
                record.value,
                record.shard,
                record.timestamp,
                record.prev_shard,
                record.prev_timestamp,
            ),
        }
    }

    /// Fills the columns for `record` and appends the comparison of its
    /// stamps to `new_field_events`.
    pub fn populate(&mut self, record: MemoryWriteRecord, new_field_events: &mut Vec<FieldEvent>)
        ensures
            *final(self) == Self::witness(record),
            final(new_field_events)@ == old(new_field_events)@.push(
                access_event(
                    record.shard,
                    record.timestamp,
                    record.prev_shard,
                    record.prev_timestamp,
                ),
            ),
    {
        let (access, event) = MemoryAccessCols::fill(
            record.value,
            record.shard,
            record.timestamp,
            record.prev_shard,
            record.prev_timestamp,
        );
        self.prev_value = Word::from_u32(record.prev_value);
        self.access = access;
        new_field_events.push(event);
    }
}

/// The integers that the scalar cells of an access denote, in the order of
/// the fields.
pub open spec fn access_values<B: ConstraintBuilder>(access: MemoryAccessCols<B::Var>) -> Seq<int> {
    seq![
        B::var_value(access.prev_shard),
        B::var_value(access.prev_clk),
        B::var_value(access.use_clk_comparison),
        B::var_value(access.prev_time_value),
        B::var_value(access.current_time_value),
    ]
}

/// The identities of one access at (`shard`, `clk`) over its scalar columns
/// `prev_shard`, `prev_clk`, `use_clk`, `prev_time`, `current_time`: the
/// flags are boolean; the clocks decide only between equal shards; the two
/// times are the clocks or the shards accordingly; and the time taken is
/// below the time left.
pub open spec fn access_relation(
    shard: int,
    clk: int,
    prev_shard: int,
    prev_clk: int,
    use_clk: int,
    prev_time: int,
    current_time: int,
    do_check: int,
    p: int,
) -> bool {
    &&& vanishes(do_check * (do_check - 1), p)
    &&& vanishes(do_check * (use_clk * (use_clk - 1)), p)
    &&& vanishes(do_check * (use_clk * (shard - prev_shard)), p)
    &&& vanishes(
        do_check * (prev_time - (use_clk * prev_clk + (1 - use_clk) * prev_shard)),
        p,
    )
    &&& vanishes(do_check * (current_time - (use_clk * clk + (1 - use_clk) * shard)), p)
    &&& field_lt_holds(prev_time, current_time, do_check, p)
}

/// What a builder has been told after one access at `addr` is stated: the
/// identities of the access, the state it consumes and the state it produces.
pub open spec fn access_state(
    before: BuilderState,
    shard: int,
    clk: int,
    addr: int,
    prev_value: Seq<int>,
    value: Seq<int>,
    scalars: Seq<int>,
    do_check: int,
    p: int,
) -> BuilderState {
    before.and(
        access_relation(
            shard,
            clk,
            scalars[0],
            scalars[1],
            scalars[2],
            scalars[3],
            scalars[4],
            do_check,
            p,
        ),
    ).with(
        MemoryObligation {
            consumed: true,
            shard: scalars[0],
            clk: scalars[1],
            addr,
            value: prev_value,
            multiplicity: do_check,
        },
    ).with(
        MemoryObligation { consumed: false, shard, clk, addr, value, multiplicity: do_check },
    )
}

/// States the identities of one access at `addr`, stamped (`shard`, `clk`),
/// that takes `prev_value` and leaves the value in `access`, on the rows
/// where `do_check` is one.
pub fn eval_memory_access<B: ConstraintBuilder>(
    builder: &mut B,
    shard: B::Var,
    clk: &B::Expr,
    addr: &B::Expr,
    prev_value: &Word<B::Var>,
    access: &MemoryAccessCols<B::Var>,
    do_check: B::Var,
)
    ensures
        final(builder).state() == access_state(
            old(builder).state(),
            B::var_value(shard),
            B::expr_value(*clk),
            B::expr_value(*addr),
            word_values::<B>(*prev_value),
            word_values::<B>(access.value),
            access_values::<B>(*access),
            B::var_value(do_check),
            B::modulus(),
        ),
{
    assert_bool(builder, do_check);
    let one = B::constant(1);
    let use_clk = B::lift(access.use_clk_comparison);
    let current_shard = B::lift(shard);
    let prev_shard = B::lift(access.prev_shard);
    let prev_clk = B::lift(access.prev_clk);
    let not_clk = B::minus(&one, &use_clk);
    // The flag that chooses clocks is boolean.
    let boolean = B::times(&use_clk, &B::minus(&use_clk, &one));
    assert_zero_when(builder, do_check, &boolean);
    // Clocks are compared only within one shard.
    let same_shard = B::times(&use_clk, &B::minus(&current_shard, &prev_shard));
    assert_zero_when(builder, do_check, &same_shard);
    // The two times are the clocks, or else the shards.
    let prev_expected = B::plus(&B::times(&use_clk, &prev_clk), &B::times(&not_clk, &prev_shard));
    let prev_time = B::lift(access.prev_time_value);
    assert_zero_when(builder, do_check, &B::minus(&prev_time, &prev_expected));
    let current_expected = B::plus(&B::times(&use_clk, clk), &B::times(&not_clk, &current_shard));
    let current_time = B::lift(access.current_time_value);
    assert_zero_when(builder, do_check, &B::minus(&current_time, &current_expected));
    let multiplicity = B::lift(do_check);
    builder.send_field_lt(&prev_time, &current_time, &multiplicity);
    builder.memory(true, &prev_shard, &prev_clk, addr, prev_value, &multiplicity);
    builder.memory(false, &current_shard, clk, addr, &access.value, &multiplicity);
    proof {
        assert(builder.state().memory =~= access_state(
            old(builder).state(),
            B::var_value(shard),
            B::expr_value(*clk),
            B::expr_value(*addr),
            word_values::<B>(*prev_value),
            word_values::<B>(access.value),
            access_values::<B>(*access),
            B::var_value(do_check),
            B::modulus(),
        ).memory);
    }
}

/// What a builder has been told after the first `n` of the reads at `ptr`,
/// `ptr + 4`, ... are stated.
pub open spec fn reads_state<B: ConstraintBuilder>(
    before: BuilderState,
    shard: int,
    clk: int,
    ptr: int,
    reads: Seq<MemoryReadCols<B::Var>>,
    do_check: int,
    n: int,
) -> BuilderState
    decreases n,
{
    if n <= 0 {
        before
    } else {
        access_state(
            reads_state::<B>(before, shard, clk, ptr, reads, do_check, n - 1),
            shard,
            clk,
            ptr + 4 * (n - 1),
            word_values::<B>(reads[n - 1].access.value),
            word_values::<B>(reads[n - 1].access.value),
            access_values::<B>(reads[n - 1].access),
            do_check,
            B::modulus(),
        )
    }
}

/// What a builder has been told after the first `n` of the writes at `ptr`,
/// `ptr + 4`, ... are stated.
pub open spec fn writes_state<B: ConstraintBuilder>(
    before: BuilderState,
    shard: int,
    clk: int,
    ptr: int,
    writes: Seq<MemoryWriteCols<B::Var>>,
    do_check: int,
    n: int,
) -> BuilderState
    decreases n,
{
    if n <= 0 {
        before
    } else {
        access_state(
            writes_state::<B>(before, shard, clk, ptr, writes, do_check, n - 1),
            shard,
            clk,
            ptr + 4 * (n - 1),
            word_values::<B>(writes[n - 1].prev_value),
            word_values::<B>(writes[n - 1].access.value),
            access_values::<B>(writes[n - 1].access),
            do_check,
            B::modulus(),
        )
    }
}

/// States the identities of the reads of the words at `ptr`, `ptr + 4`, ...,
/// all stamped (`shard`, `clk`), on the rows where `do_check` is one.
pub fn eval_memory_read_slice<B: ConstraintBuilder, const N: usize>(
    builder: &mut B,
    shard: B::Var,
    clk: &B::Expr,
    ptr: B::Var,
    reads: &[MemoryReadCols<B::Var>; N],
    do_check: B::Var,
)
    requires
        N <= 0x1000_0000,
    ensures
        final(builder).state() == reads_state::<B>(
            old(builder).state(),
            B::var_value(shard),
            B::expr_value(*clk),
            B::var_value(ptr),
            reads@,
            B::var_value(do_check),
            N as int,
        ),
{
    let mut i: usize = 0;
    while i < N
        invariant
            i <= N,
            N <= 0x1000_0000,
            reads@.len() == N,
            builder.state() == reads_state::<B>(
                old(builder).state(),
                B::var_value(shard),
                B::expr_value(*clk),
                B::var_value(ptr),
                reads@,
                B::var_value(do_check),
                i as int,
            ),
        decreases N - i,
    {
        let addr = B::plus(&B::lift(ptr), &B::constant((4 * i) as u32));
        eval_memory_access(
            builder,
            shard,
            clk,
            &addr,
            &reads[i].access.value,
            &reads[i].access,
            do_check,
        );
        i += 1;
    }
}

/// States the identities of the writes of the words at `ptr`, `ptr + 4`,
/// ..., all stamped (`shard`, `clk`), on the rows where `do_check` is one.
pub fn eval_memory_write_slice<B: ConstraintBuilder, const N: usize>(
    builder: &mut B,
    shard: B::Var,
    clk: &B::Expr,
    ptr: B::Var,
    writes: &[MemoryWriteCols<B::Var>; N],
    do_check: B::Var,
)
    requires
        N <= 0x1000_0000,
    ensures
        final(builder).state() == writes_state::<B>(
            old(builder).state(),
            B::var_value(shard),
            B::expr_value(*clk),
            B::var_value(ptr),
            writes@,
            B::var_value(do_check),
            N as int,
        ),
{
    let mut i: usize = 0;
    while i < N
        invariant
            i <= N,
            N <= 0x1000_0000,
            writes@.len() == N,
            builder.state() == writes_state::<B>(
                old(builder).state(),
                B::var_value(shard),
                B::expr_value(*clk),
                B::var_value(ptr),
                writes@,
                B::var_value(do_check),
                i as int,
            ),
        decreases N - i,
    {
        let addr = B::plus(&B::lift(ptr), &B::constant((4 * i) as u32));
        eval_memory_access(
            builder,
            shard,
            clk,
            &addr,
            &writes[i].prev_value,
            &writes[i].access,
            do_check,
        );
        i += 1;
    }
}

/// Whether the read `record` is one that a row stamped (`shard`, `clk`) can
/// claim in a field of characteristic `p`: it carries the row's stamp, comes
/// after the access it takes from, and the field holds the stamp.
pub open spec fn read_claimable(record: MemoryReadRecord, shard: u32, clk: int, p: int) -> bool {
    &&& record.shard == shard
    &&& record.timestamp == clk
    &&& access_ordered(record.shard, record.timestamp, record.prev_shard, record.prev_timestamp)
    &&& shard < p
    &&& clk < p
}

/// Whether the write `record` is one that a row stamped (`shard`, `clk`) can
/// claim in a field of characteristic `p`.
pub open spec fn write_claimable(record: MemoryWriteRecord, shard: u32, clk: int, p: int) -> bool {
    &&& record.shard == shard
    &&& record.timestamp == clk
    &&& access_ordered(record.shard, record.timestamp, record.prev_shard, record.prev_timestamp)
    &&& shard < p
    &&& clk < p
}

/// The identities of reads hold for the columns of claimable records, and
/// on a row that is not real for any columns.
pub proof fn lemma_reads_satisfied<const P: u32>(
    before: BuilderState,
    shard: u32,
    clk: int,
    ptr: int,
    records: Seq<MemoryReadRecord>,
    reads: Seq<MemoryReadCols<u32>>,
    do_check: int,
    n: int,
)
    requires
        P > 0,
        0 <= n <= reads.len(),
        n <= records.len(),
        do_check == 0 || do_check == 1,
        do_check == 1 ==> forall|i: int|
            0 <= i < n ==> reads[i] == MemoryReadCols::witness(#[trigger] records[i])
                && read_claimable(records[i], shard, clk, P as int),
    ensures
        reads_state::<RowEvaluator<P>>(before, shard as int, clk, ptr, reads, do_check, n).satisfied
            == before.satisfied,
    decreases n,
{
    if n > 0 {
        lemma_reads_satisfied::<P>(before, shard, clk, ptr, records, reads, do_check, n - 1);
        let a = reads[n - 1].access;
        let r = records[n - 1];
        if do_check == 1 {
            assert(read_claimable(r, shard, clk, P as int));
            lemma_access_witness_satisfies(
                r.value,
                r.shard,
                r.timestamp,
                r.prev_shard,
                r.prev_timestamp,
                do_check,
                P as int,
            );
        } else {
            lemma_access_unconstrained(
                shard as int,
                clk,
                access_values::<RowEvaluator<P>>(a),
                P as int,
            );
        }
    }
}

/// The identities of writes hold for the columns of claimable records, and
/// on a row that is not real for any columns.
pub proof fn lemma_writes_satisfied<const P: u32>(
    before: BuilderState,
    shard: u32,
    clk: int,
    ptr: int,
    records: Seq<MemoryWriteRecord>,
    writes: Seq<MemoryWriteCols<u32>>,
    do_check: int,
    n: int,
)
    requires
        P > 0,
        0 <= n <= writes.len(),
        n <= records.len(),
        do_check == 0 || do_check == 1,
        do_check == 1 ==> forall|i: int|
            0 <= i < n ==> writes[i] == MemoryWriteCols::witness(#[trigger] records[i])
                && write_claimable(records[i], shard, clk, P as int),
    ensures
        writes_state::<RowEvaluator<P>>(
            before,
            shard as int,
            clk,
            ptr,
            writes,
            do_check,
            n,
        ).satisfied == before.satisfied,
    decreases n,
{
    if n > 0 {
        lemma_writes_satisfied::<P>(before, shard, clk, ptr, records, writes, do_check, n - 1);
        let a = writes[n - 1].access;
        let r = records[n - 1];
        if do_check == 1 {
            assert(write_claimable(r, shard, clk, P as int));
            lemma_access_witness_satisfies(
                r.value,
                r.shard,
                r.timestamp,
                r.prev_shard,
                r.prev_timestamp,
                do_check,
                P as int,
            );
        } else {
            lemma_access_unconstrained(
                shard as int,
                clk,
                access_values::<RowEvaluator<P>>(a),
                P as int,
            );
        }
    }
}

/// On a row that is not real the identities of reads hold for any columns.
pub proof fn lemma_reads_unconstrained<const P: u32>(
    before: BuilderState,
    shard: int,
    clk: int,
    ptr: int,
    reads: Seq<MemoryReadCols<u32>>,
    n: int,
)
    requires
        P > 0,
        0 <= n <= reads.len(),
    ensures
        reads_state::<RowEvaluator<P>>(before, shard, clk, ptr, reads, 0, n).satisfied
            == before.satisfied,
    decreases n,
{
    if n > 0 {
        lemma_reads_unconstrained::<P>(before, shard, clk, ptr, reads, n - 1);
        lemma_access_unconstrained(
            shard,
            clk,
            access_values::<RowEvaluator<P>>(reads[n - 1].access),
            P as int,
        );
    }
}

/// On a row that is not real the identities of writes hold for any columns.
pub proof fn lemma_writes_unconstrained<const P: u32>(
    before: BuilderState,
    shard: int,
    clk: int,
    ptr: int,
    writes: Seq<MemoryWriteCols<u32>>,
    n: int,
)
    requires
        P > 0,
        0 <= n <= writes.len(),
    ensures
        writes_state::<RowEvaluator<P>>(before, shard, clk, ptr, writes, 0, n).satisfied
            == before.satisfied,
    decreases n,
{
    if n > 0 {
        lemma_writes_unconstrained::<P>(before, shard, clk, ptr, writes, n - 1);
        lemma_access_unconstrained(
            shard,
            clk,
            access_values::<RowEvaluator<P>>(writes[n - 1].access),
            P as int,
        );
    }
}

/// On a row that is not real the identities of an access hold for any
/// columns.
pub proof fn lemma_access_unconstrained(shard: int, clk: int, scalars: Seq<int>, p: int)
    requires
        p > 0,
    ensures
        access_relation(
            shard,
            clk,
            scalars[0],
            scalars[1],
            scalars[2],
            scalars[3],
            scalars[4],
            0,
            p,
        ),
{
    lemma_small_mod(0, p as nat);
    assert(forall|x: int| #[trigger] (0 * x) == 0) by (nonlinear_arith);
}

/// The identities of an access hold for the columns of a record that comes
/// after the access it takes from, at the record's own stamp, in a field
/// above every stamp; and on a row that is not real they hold for any
/// columns.
pub proof fn lemma_access_witness_satisfies(
    value: u32,
    shard: u32,
    timestamp: u32,
    prev_shard: u32,
    prev_timestamp: u32,
    do_check: int,
    p: int,
)
    requires
        p > 0,
        do_check == 0 || (do_check == 1 && access_ordered(
            shard,
            timestamp,
            prev_shard,
            prev_timestamp,
        ) && shard < p && timestamp < p),
    ensures
        ({
            let w = access_witness(value, shard, timestamp, prev_shard, prev_timestamp);
            access_relation(
                shard as int,
                timestamp as int,
                w.prev_shard as int,
                w.prev_clk as int,
                w.use_clk_comparison as int,
                w.prev_time_value as int,
                w.current_time_value as int,
                do_check,
                p,
            )
        }),
{
    let w = access_witness(value, shard, timestamp, prev_shard, prev_timestamp);
    lemma_small_mod(0, p as nat);
    if do_check == 0 {
        assert(forall|x: int| #[trigger] (0 * x) == 0) by (nonlinear_arith);
    } else {
        let u = w.use_clk_comparison as int;
        assert(u * (u - 1) == 0) by (nonlinear_arith)
            requires
                u == 0 || u == 1,
        ;
        assert(u * (shard - prev_shard) == 0) by (nonlinear_arith)
            requires
                u == 0 || shard == prev_shard,
        ;
        assert(u * prev_timestamp + (1 - u) * prev_shard == w.prev_time_value) by (nonlinear_arith)
            requires
                (u == 1 && w.prev_time_value == prev_timestamp) || (u == 0 && w.prev_time_value
                    == prev_shard),
        ;
        assert(u * timestamp + (1 - u) * shard == w.current_time_value) by (nonlinear_arith)
            requires
                (u == 1 && w.current_time_value == timestamp) || (u == 0 && w.current_time_value
                    == shard),
        ;
        lemma_small_mod(w.prev_time_value as nat, p as nat);
        lemma_small_mod(w.current_time_value as nat, p as nat);
        lemma_small_mod(1, p as nat);
    }
}

} // verus!
