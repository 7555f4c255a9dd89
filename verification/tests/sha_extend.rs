use precompile_chips::builder::ConstraintBuilder;
use precompile_chips::evaluator::RowEvaluator;
use precompile_chips::memory::{MemoryReadRecord, MemoryWriteRecord};
use precompile_chips::word::Word;
use precompile_chips::operations::add4::Add4Operation;
use precompile_chips::operations::shift_right::{shift_right, FixedShiftRightOperation};
use precompile_chips::record::ExecutionRecord;
use precompile_chips::sha256::extend::{
    ShaExtendChip, ShaExtendCols, ShaExtendEvent, NUM_SHA_EXTEND_COLS,
};

const BABY_BEAR: u32 = 2013265921;
const I: usize = 3;
const CYCLE_48: usize = 4;
const CYCLE_48_START: usize = 7;
const CYCLE_48_END: usize = 8;
const S0_VALUE: usize = 58;
const S1_VALUE: usize = 111;
const S2_VALUE: usize = 133;
const IS_REAL: usize = 170;

// The schedule of the one block of the message "abc".
const ABC_EXTENDED: [u32; 48] = [
    0x61626380, 0x000f0000, 0x7da86405, 0x600003c6, 0x3e9d7b78, 0x0183fc00, 0x12dcbfdb,
    0xe2e2c38e, 0xc8215c1a, 0xb73679a2, 0xe5bc3909, 0x32663c5b, 0x9d209d67, 0xec8726cb,
    0x702138a4, 0xd3b7973b, 0x93f5997f, 0x3b68ba73, 0xaff4ffc1, 0xf10a5c62, 0x0a8b3996,
    0x72af830a, 0x9409e33e, 0x24641522, 0x9f47bf94, 0xf0a64f5a, 0x3e246a79, 0x27333ba3,
    0x0c4763f2, 0x840abf27, 0x7a290d5d, 0x065c43da, 0xfb3e89cb, 0xcc7617db, 0xb9e66c34,
    0xa9993667, 0x84badedd, 0xc21462bc, 0x1487472c, 0xb20f7a99, 0xef57b9cd, 0xebe6b238,
    0x9fe3095e, 0x78bc8d4b, 0xa43fcf15, 0x668b2ff8, 0xeeaba2cc, 0x12b1edeb,
];

fn abc_block() -> [u32; 16] {
    let mut block = [0u32; 16];
    block[0] = 0x61626380;
    block[15] = 0x18;
    block
}

fn reference_schedule(block: [u32; 16]) -> [u32; 64] {
    let mut w = [0u32; 64];
    w[..16].copy_from_slice(&block);
    for i in 16..64 {
        let s0 = w[i - 15].rotate_right(7) ^ w[i - 15].rotate_right(18) ^ (w[i - 15] >> 3);
        let s1 = w[i - 2].rotate_right(17) ^ w[i - 2].rotate_right(19) ^ (w[i - 2] >> 10);
        w[i] = w[i - 16].wrapping_add(s0).wrapping_add(w[i - 7]).wrapping_add(s1);
    }
    w
}

fn read(value: u32, shard: u32, clk: u32) -> MemoryReadRecord {
    MemoryReadRecord { value, shard, timestamp: clk, prev_shard: shard, prev_timestamp: clk - 1 }
}

fn event(block: [u32; 16], shard: u32, clk: u32) -> ShaExtendEvent {
    let w = reference_schedule(block);
    let mut event = ShaExtendEvent {
        shard,
        clk,
        w_ptr: 0x4000,
        w_i_minus_15_reads: [read(0, shard, clk); 48],
        w_i_minus_2_reads: [read(0, shard, clk); 48],
        w_i_minus_16_reads: [read(0, shard, clk); 48],
        w_i_minus_7_reads: [read(0, shard, clk); 48],
        w_i_writes: [MemoryWriteRecord {
            value: 0,
            shard,
            timestamp: clk,
            prev_value: 0,
            prev_shard: shard - 1,
            prev_timestamp: 5,
        }; 48],
    };
    for j in 0..48 {
        let i = 16 + j;
        event.w_i_minus_15_reads[j].value = w[i - 15];
        event.w_i_minus_2_reads[j].value = w[i - 2];
        event.w_i_minus_16_reads[j].value = w[i - 16];
        event.w_i_minus_7_reads[j].value = w[i - 7];
        event.w_i_writes[j].value = w[i];
    }
    event
}

fn word_at(row: &[u32], start: usize) -> u32 {
    u32::from_le_bytes([
        row[start] as u8,
        row[start + 1] as u8,
        row[start + 2] as u8,
        row[start + 3] as u8,
    ])
}

fn trace_of(events: Vec<ShaExtendEvent>) -> (Vec<u32>, ExecutionRecord) {
    let mut input = ExecutionRecord::new();
    input.sha_extend_events = events;
    let mut output = ExecutionRecord::new();
    let trace = ShaExtendChip.generate_trace(&input, &mut output);
    assert_eq!(trace.width, NUM_SHA_EXTEND_COLS);
    (trace.values, output)
}

#[test]
fn sha_extend_of_abc_is_the_published_schedule() {
    let (values, _) = trace_of(vec![event(abc_block(), 1, 10)]);
    assert_eq!(values.len(), 64 * NUM_SHA_EXTEND_COLS);
    for (j, expected) in ABC_EXTENDED.iter().enumerate() {
        let row = &values[j * NUM_SHA_EXTEND_COLS..(j + 1) * NUM_SHA_EXTEND_COLS];
        assert_eq!(word_at(row, S2_VALUE), *expected);
        assert_eq!(row[IS_REAL], 1);
    }
}

#[test]
fn sha_extend_matches_reference() {
    let mut block = [0u32; 16];
    for (i, word) in block.iter_mut().enumerate() {
        *word = 0x9e37_79b9u32.wrapping_mul(i as u32 + 1) ^ 0xdead_beef;
    }
    let w = reference_schedule(block);
    let (values, _) = trace_of(vec![event(abc_block(), 1, 10), event(block, 1, 20)]);
    assert_eq!(values.len(), 128 * NUM_SHA_EXTEND_COLS);
    for j in 0..48 {
        let i = 16 + j;
        let row = &values[(48 + j) * NUM_SHA_EXTEND_COLS..(49 + j) * NUM_SHA_EXTEND_COLS];
        let s0 = w[i - 15].rotate_right(7) ^ w[i - 15].rotate_right(18) ^ (w[i - 15] >> 3);
        let s1 = w[i - 2].rotate_right(17) ^ w[i - 2].rotate_right(19) ^ (w[i - 2] >> 10);
        assert_eq!(word_at(row, S0_VALUE), s0);
        assert_eq!(word_at(row, S1_VALUE), s1);
        assert_eq!(word_at(row, S2_VALUE), w[i]);
        assert_eq!(row[0], 1);
        assert_eq!(row[1], 20);
        assert_eq!(row[2], 0x4000);
    }
}

#[test]
fn sha_extend_rows_carry_their_round() {
    let (values, _) = trace_of(vec![event(abc_block(), 1, 10)]);
    for (r, row) in values.chunks(NUM_SHA_EXTEND_COLS).enumerate() {
        let j = 16 + r % 48;
        assert_eq!(row[I], j as u32);
        assert_eq!(row[CYCLE_48], (j < 32) as u32);
        assert_eq!(row[CYCLE_48 + 1], (32 <= j && j < 48) as u32);
        assert_eq!(row[CYCLE_48 + 2], (48 <= j) as u32);
        assert_eq!(row[CYCLE_48_START], (j == 16) as u32);
        assert_eq!(row[CYCLE_48_END], (j == 63) as u32);
    }
}

#[test]
fn sha_extend_trace_is_padded_to_a_power_of_two() {
    for (events, rows) in [(0usize, 4usize), (1, 64), (2, 128), (3, 256), (5, 256), (6, 512)] {
        let (values, output) = trace_of(vec![event(abc_block(), 2, 10); events]);
        assert_eq!(values.len(), rows * NUM_SHA_EXTEND_COLS);
        for (r, row) in values.chunks(NUM_SHA_EXTEND_COLS).enumerate() {
            assert_eq!(row[IS_REAL], (r < 48 * events) as u32);
            if r >= 48 * events {
                assert!(row[..I].iter().all(|cell| *cell == 0));
                assert!(row[CYCLE_48_END + 1..].iter().all(|cell| *cell == 0));
                assert_eq!(row[I], (16 + r % 48) as u32);
            }
        }
        assert_eq!(output.field_events.len(), events * 48 * 5);
        assert_eq!(output.byte_lookup_events.len(), events * 48 * (6 * 4 + 4 * 4 + 10));
    }
}

#[test]
fn shift_right_gadget_matches_the_shift() {
    for input in [0u32, 1, 0x8000_0000, 0xffff_ffff, 0x1234_5678, 0xdead_beef] {
        for rotation in 0..32usize {
            let mut record = ExecutionRecord::new();
            let mut cols = FixedShiftRightOperation::<u32>::default();
            let result = cols.populate(&mut record, input, rotation);
            assert_eq!(result, input >> rotation);
            assert_eq!(shift_right(input, rotation as u32), input >> rotation);
            assert_eq!(word_at(&cols.value.0, 0), input >> rotation);
            assert_eq!(record.byte_lookup_events.len(), 4);
        }
    }
}

#[test]
fn shift_right_known_value() {
    let mut record = ExecutionRecord::new();
    let mut cols = FixedShiftRightOperation::<u32>::default();
    assert_eq!(cols.populate(&mut record, 0x0000_0018, 3), 3);
    assert_eq!(cols.value.0, [3, 0, 0, 0]);
    assert_eq!(cols.populate(&mut record, 0x6162_6380, 10), 0x0018_5898);
}

#[test]
fn add4_gadget_matches_the_wrapping_sum() {
    let cases = [
        [0u32, 0, 0, 0],
        [1, 2, 3, 4],
        [0xffff_ffff, 0xffff_ffff, 0xffff_ffff, 0xffff_ffff],
        [0x8000_0000, 0x8000_0000, 1, 0],
        [0x1234_5678, 0x9abc_def0, 0x0fed_cba9, 0x8765_4321],
    ];
    for [a, b, c, d] in cases {
        let mut record = ExecutionRecord::new();
        let mut cols = Add4Operation::<u32>::zeroed();
        let sum = cols.populate(&mut record, a, b, c, d);
        assert_eq!(sum, a.wrapping_add(b).wrapping_add(c).wrapping_add(d));
        assert_eq!(word_at(&cols.value.0, 0), sum);
        for lane in 0..4 {
            let flags = [
                cols.is_carry_0.0[lane],
                cols.is_carry_1.0[lane],
                cols.is_carry_2.0[lane],
                cols.is_carry_3.0[lane],
            ];
            assert_eq!(flags.iter().sum::<u32>(), 1);
            assert_eq!(flags[cols.carry.0[lane] as usize], 1);
        }
        assert_eq!(record.byte_lookup_events.len(), 10);
    }
}

#[test]
fn add4_known_value() {
    let mut record = ExecutionRecord::new();
    let mut cols = Add4Operation::<u32>::zeroed();
    let sum = cols.populate(&mut record, 0xff, 0xff, 0xff, 0xff);
    assert_eq!(sum, 0x3fc);
    assert_eq!(cols.value.0, [0xfc, 3, 0, 0]);
    assert_eq!(cols.carry.0, [3, 0, 0, 0]);
    assert_eq!(cols.is_carry_3.0, [1, 0, 0, 0]);
    assert_eq!(cols.is_carry_0.0, [0, 1, 1, 1]);
}

#[test]
fn sha_extend_chip_describes_itself() {
    assert_eq!(ShaExtendChip.name(), "ShaExtend");
    assert_eq!(ShaExtendChip.width(), 171);
    let mut row = Vec::new();
    ShaExtendCols::<u32>::zeroed().append_to(&mut row);
    assert_eq!(row.len(), 171);
}

fn evaluate_row(row: &[u32]) -> RowEvaluator<BABY_BEAR> {
    let cols = ShaExtendCols::<u32>::from_row(row);
    let mut evaluator = RowEvaluator::<BABY_BEAR>::new();
    ShaExtendChip.eval(&mut evaluator, &cols);
    evaluator
}

#[test]
fn sha_extend_rows_pass_the_evaluator() {
    let (values, _) = trace_of(vec![event(abc_block(), 3, 10)]);
    for (r, row) in values.chunks(NUM_SHA_EXTEND_COLS).enumerate() {
        let evaluator = evaluate_row(row);
        assert!(evaluator.is_satisfied());
        let seen = evaluator.memory_interactions();
        assert_eq!(seen.len(), 10);
        for interaction in seen.iter() {
            assert_eq!(interaction.multiplicity, (r < 48) as u32);
        }
        if r < 48 {
            // The write leaves the new word at its place in the schedule.
            assert_eq!(seen[9].consumed, false);
            assert_eq!(seen[9].addr, 0x4000 + 4 * (16 + r as u32));
            assert_eq!(seen[9].value, Word::from_u32(ABC_EXTENDED[r]).0);
            assert_eq!(seen[9].shard, 3);
            assert_eq!(seen[9].clk, 10);
            // The first read takes the word fifteen places back.
            assert_eq!(seen[0].consumed, true);
            assert_eq!(seen[0].addr, 0x4000 + 4 * (1 + r as u32));
            assert_eq!(seen[1].consumed, false);
        }
    }
}

#[test]
fn sha_extend_evaluator_rejects_a_wrong_word() {
    let mut wrong = event(abc_block(), 3, 10);
    wrong.w_i_writes[5].value ^= 0x100;
    let (values, _) = trace_of(vec![wrong]);
    for (r, row) in values.chunks(NUM_SHA_EXTEND_COLS).enumerate() {
        assert_eq!(evaluate_row(row).is_satisfied(), r != 5);
    }
}

#[test]
fn sha_extend_evaluator_rejects_a_wrong_column() {
    let (values, _) = trace_of(vec![event(abc_block(), 3, 10)]);
    let mut row = values[..NUM_SHA_EXTEND_COLS].to_vec();
    row[S0_VALUE] ^= 1;
    assert!(!evaluate_row(&row).is_satisfied());
    let mut row = values[..NUM_SHA_EXTEND_COLS].to_vec();
    row[S2_VALUE + 20] = 1;
    assert!(!evaluate_row(&row).is_satisfied());
    let mut row = values[..NUM_SHA_EXTEND_COLS].to_vec();
    row[45] ^= 1;
    assert!(!evaluate_row(&row).is_satisfied());
}

#[test]
fn sha_extend_row_round_trips_through_its_cells() {
    let (values, _) = trace_of(vec![event(abc_block(), 3, 10)]);
    for row in values.chunks(NUM_SHA_EXTEND_COLS) {
        let mut again = Vec::new();
        ShaExtendCols::<u32>::from_row(row).append_to(&mut again);
        assert_eq!(row, &again[..]);
    }
}
