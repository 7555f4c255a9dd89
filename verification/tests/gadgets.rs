use precompile_chips::builder::{assert_bool, assert_zero_when, range_check_word, ConstraintBuilder};
use precompile_chips::bytes::{is_byte_row, shr_carry, two_to, ByteLookupEvent, ByteOpcode};
use precompile_chips::evaluator::RowEvaluator;
use precompile_chips::limbs::Limbs;
use precompile_chips::memory::{
    eval_memory_access, MemoryReadCols, MemoryReadRecord, MemoryWriteCols, MemoryWriteRecord,
};
use precompile_chips::operations::add::AddOperation;
use precompile_chips::operations::add4::Add4Operation;
use precompile_chips::operations::rotate_right::{rotate_right, FixedRotateRightOperation};
use precompile_chips::operations::shift_right::FixedShiftRightOperation;
use precompile_chips::operations::xor::XorOperation;
use precompile_chips::record::{ExecutionRecord, FieldEvent};
use precompile_chips::trace::{pad_rows, padded_row_count};
use precompile_chips::word::{byte, join, Word};

const BABY_BEAR: u32 = 2013265921;

type Field = RowEvaluator<BABY_BEAR>;

fn word_at(cells: &[u32; 4]) -> u32 {
    join(cells[0] as u8, cells[1] as u8, cells[2] as u8, cells[3] as u8)
}

const WORDS: [u32; 8] =
    [0, 1, 0xff, 0x100, 0x8000_0000, 0xffff_ffff, 0x1234_5678, 0xdead_beef];

#[test]
fn word_lanes_are_little_endian() {
    let w = Word::from_u32(0x1234_5678);
    assert_eq!(w.0, [0x78, 0x56, 0x34, 0x12]);
    assert_eq!(byte(0x1234_5678, 0), 0x78);
    assert_eq!(byte(0x1234_5678, 3), 0x12);
    assert_eq!(join(0x78, 0x56, 0x34, 0x12), 0x1234_5678);
    for x in WORDS {
        assert_eq!(word_at(&Word::from_u32(x).0), x);
    }
}

#[test]
fn add_gadget_wraps() {
    for a in WORDS {
        for b in WORDS {
            let mut record = ExecutionRecord::new();
            let mut cols = AddOperation::<u32>::default();
            let sum = cols.populate(&mut record, a, b);
            assert_eq!(sum, a.wrapping_add(b));
            assert_eq!(word_at(&cols.value.0), sum);
            assert_eq!(record.byte_lookup_events.len(), 6);
            let mut evaluator = Field::new();
            AddOperation::<u32>::eval(
                &mut evaluator,
                Word::from_u32(a),
                Word::from_u32(b),
                cols,
                1,
            );
            assert!(evaluator.is_satisfied());
        }
    }
}

#[test]
fn add_known_value() {
    let mut record = ExecutionRecord::new();
    let mut cols = AddOperation::<u32>::default();
    assert_eq!(cols.populate(&mut record, 0x0000_01ff, 0x0000_0001), 0x0000_0200);
    assert_eq!(cols.value.0, [0, 2, 0, 0]);
    assert_eq!(cols.carry, [1, 0, 0]);
    assert_eq!(
        record.byte_lookup_events[0],
        ByteLookupEvent { opcode: ByteOpcode::Range, a1: 0, a2: 0, b: 0xff, c: 1 }
    );
    assert_eq!(
        record.byte_lookup_events[4],
        ByteLookupEvent { opcode: ByteOpcode::Range, a1: 0, a2: 0, b: 0, c: 2 }
    );
}

#[test]
fn add_evaluator_rejects_a_wrong_sum() {
    let mut record = ExecutionRecord::new();
    let mut cols = AddOperation::<u32>::default();
    cols.populate(&mut record, 5, 6);
    cols.value.0[0] = 12;
    let mut evaluator = Field::new();
    AddOperation::<u32>::eval(&mut evaluator, Word::from_u32(5), Word::from_u32(6), cols, 1);
    assert!(!evaluator.is_satisfied());
    // A row that is not real is not constrained.
    let mut evaluator = Field::new();
    AddOperation::<u32>::eval(&mut evaluator, Word::from_u32(5), Word::from_u32(6), cols, 0);
    assert!(evaluator.is_satisfied());
    // A flag that is not boolean is rejected.
    let mut evaluator = Field::new();
    AddOperation::<u32>::eval(&mut evaluator, Word::from_u32(5), Word::from_u32(6), cols, 2);
    assert!(!evaluator.is_satisfied());
}

#[test]
fn xor_gadget_matches_the_operator() {
    for a in WORDS {
        for b in WORDS {
            let mut record = ExecutionRecord::new();
            let mut cols = XorOperation::<u32>::default();
            assert_eq!(cols.populate(&mut record, a, b), a ^ b);
            assert_eq!(word_at(&cols.value.0), a ^ b);
            assert_eq!(record.byte_lookup_events.len(), 4);
            for (i, event) in record.byte_lookup_events.iter().enumerate() {
                assert_eq!(event.opcode, ByteOpcode::Xor);
                assert_eq!(event.a1, (byte(a, i) ^ byte(b, i)) as u32);
                assert_eq!(event.a2, 0);
                assert_eq!(event.b, byte(a, i) as u32);
                assert_eq!(event.c, byte(b, i) as u32);
            }
            let mut evaluator = Field::new();
            XorOperation::<u32>::eval(
                &mut evaluator,
                Word::from_u32(a),
                Word::from_u32(b),
                cols,
                1,
            );
            assert!(evaluator.is_satisfied());
        }
    }
}

#[test]
fn xor_evaluator_rejects_a_wrong_lane() {
    let mut record = ExecutionRecord::new();
    let mut cols = XorOperation::<u32>::default();
    cols.populate(&mut record, 0xf0f0, 0x0ff0);
    cols.value.0[1] ^= 0x80;
    let mut evaluator = Field::new();
    XorOperation::<u32>::eval(
        &mut evaluator,
        Word::from_u32(0xf0f0),
        Word::from_u32(0x0ff0),
        cols,
        1,
    );
    assert!(!evaluator.is_satisfied());
}

#[test]
fn rotate_gadget_matches_the_rotation() {
    for input in WORDS {
        for rotation in 0..70usize {
            let mut record = ExecutionRecord::new();
            let mut cols = FixedRotateRightOperation::<u32>::default();
            let result = cols.populate(&mut record, input, rotation);
            assert_eq!(result, input.rotate_right(rotation as u32));
            assert_eq!(rotate_right(input, rotation as u32), result);
            assert_eq!(word_at(&cols.value.0), result);
            assert_eq!(record.byte_lookup_events.len(), 4);
            let mut evaluator = Field::new();
            FixedRotateRightOperation::<u32>::eval(
                &mut evaluator,
                Word::from_u32(input),
                rotation,
                cols,
                1,
            );
            assert!(evaluator.is_satisfied());
        }
    }
}

#[test]
fn rotate_known_value() {
    let mut record = ExecutionRecord::new();
    let mut cols = FixedRotateRightOperation::<u32>::default();
    assert_eq!(cols.populate(&mut record, 0x0000_0001, 12), 0x0010_0000);
    assert_eq!(cols.value.0, [0, 0, 0x10, 0]);
    assert_eq!(cols.shift.0, [0, 0, 0, 0]);
    assert_eq!(cols.carry.0, [0, 0, 0, 1]);
    assert_eq!(
        record.byte_lookup_events[0],
        ByteLookupEvent { opcode: ByteOpcode::ShrCarry, a1: 0, a2: 1, b: 1, c: 4 }
    );
}

#[test]
fn rotate_evaluator_rejects_a_wrong_carry() {
    let mut record = ExecutionRecord::new();
    let mut cols = FixedRotateRightOperation::<u32>::default();
    cols.populate(&mut record, 0x1234_5678, 7);
    cols.carry.0[2] ^= 1;
    let mut evaluator = Field::new();
    FixedRotateRightOperation::<u32>::eval(
        &mut evaluator,
        Word::from_u32(0x1234_5678),
        7,
        cols,
        1,
    );
    assert!(!evaluator.is_satisfied());
}

#[test]
fn shift_and_add4_rows_pass_the_evaluator() {
    for input in WORDS {
        for rotation in [0usize, 3, 8, 10, 17, 31] {
            let mut record = ExecutionRecord::new();
            let mut cols = FixedShiftRightOperation::<u32>::default();
            cols.populate(&mut record, input, rotation);
            let mut evaluator = Field::new();
            FixedShiftRightOperation::<u32>::eval(
                &mut evaluator,
                Word::from_u32(input),
                rotation,
                cols,
                1,
            );
            assert!(evaluator.is_satisfied());
            cols.value.0[3] ^= 1;
            let mut evaluator = Field::new();
            FixedShiftRightOperation::<u32>::eval(
                &mut evaluator,
                Word::from_u32(input),
                rotation,
                cols,
                1,
            );
            assert!(!evaluator.is_satisfied());
        }
    }
    for a in WORDS {
        let (b, c, d) = (a.rotate_left(3), !a, a ^ 0x5555_5555);
        let mut record = ExecutionRecord::new();
        let mut cols = Add4Operation::<u32>::zeroed();
        cols.populate(&mut record, a, b, c, d);
        let words = [Word::from_u32(a), Word::from_u32(b), Word::from_u32(c), Word::from_u32(d)];
        let mut evaluator = Field::new();
        Add4Operation::<u32>::eval(&mut evaluator, words[0], words[1], words[2], words[3], cols, 1);
        assert!(evaluator.is_satisfied());
        cols.carry.0[0] = (cols.carry.0[0] + 1) % 4;
        let mut evaluator = Field::new();
        Add4Operation::<u32>::eval(&mut evaluator, words[0], words[1], words[2], words[3], cols, 1);
        assert!(!evaluator.is_satisfied());
    }
}

#[test]
fn byte_table_rows() {
    assert!(is_byte_row(ByteOpcode::Xor, 0x0f ^ 0xf3, 0, 0x0f, 0xf3));
    assert!(!is_byte_row(ByteOpcode::Xor, 0x0f ^ 0xf3, 1, 0x0f, 0xf3));
    assert!(!is_byte_row(ByteOpcode::Xor, 0, 0, 0x100, 0x100));
    assert!(is_byte_row(ByteOpcode::ShrCarry, 0b1011, 0b0101, 0b1011_0101, 4));
    assert!(is_byte_row(ByteOpcode::ShrCarry, 0xab, 0, 0xab, 8));
    assert!(!is_byte_row(ByteOpcode::ShrCarry, 0b1011, 0b0100, 0b1011_0101, 4));
    assert!(is_byte_row(ByteOpcode::Range, 0, 0, 255, 0));
    assert!(!is_byte_row(ByteOpcode::Range, 0, 0, 256, 0));
    assert!(!is_byte_row(ByteOpcode::Range, 1, 0, 2, 3));
    assert_eq!(shr_carry(0b1011_0101, 3), (0b10110, 0b101));
    assert_eq!(shr_carry(0xff, 0), (0xff, 0));
    assert_eq!(shr_carry(0xff, 11), (0x1f, 0x7));
    for k in 0..=32u32 {
        assert_eq!(two_to(k), 1u64 << k);
    }
}

#[test]
fn evaluator_computes_in_the_field() {
    let p = BABY_BEAR;
    let a = Field::lift(p - 1);
    let b = Field::constant(5);
    assert_eq!(Field::plus(&a, &b).residue(), 4);
    assert_eq!(Field::minus(&b, &a).residue(), 6);
    assert_eq!(Field::minus(&a, &b).residue(), p - 6);
    assert_eq!(Field::times(&a, &a).residue(), 1);
    assert_eq!(Field::times(&a, &b).residue(), p - 5);
    assert_eq!(Field::lift(p).residue(), 0);
    assert_eq!(Field::constant(u32::MAX).residue(), u32::MAX % p);

    let mut evaluator = Field::new();
    assert!(evaluator.is_satisfied());
    evaluator.assert_zero(&Field::minus(&Field::plus(&a, &b), &Field::constant(4)));
    assert!(evaluator.is_satisfied());
    evaluator.assert_zero(&b);
    assert!(!evaluator.is_satisfied());
    evaluator.assert_zero(&Field::constant(0));
    assert!(!evaluator.is_satisfied());
}

#[test]
fn evaluator_answers_lookups() {
    let mut evaluator = Field::new();
    let one = Field::constant(1);
    let zero = Field::constant(0);
    evaluator.send_byte(
        ByteOpcode::Xor,
        &Field::constant(3),
        &zero,
        &one,
        &Field::constant(2),
        &one,
    );
    assert!(evaluator.is_satisfied());
    // A lookup that is sent no times asks nothing.
    evaluator.send_byte(ByteOpcode::Xor, &Field::constant(9), &zero, &one, &one, &zero);
    assert!(evaluator.is_satisfied());
    evaluator.send_field_lt(&one, &Field::constant(2), &one);
    assert!(evaluator.is_satisfied());
    evaluator.send_field_lt(&one, &one, &zero);
    assert!(evaluator.is_satisfied());
    evaluator.send_field_lt(&one, &one, &one);
    assert!(!evaluator.is_satisfied());
    let mut evaluator = Field::new();
    evaluator.send_byte(ByteOpcode::Xor, &Field::constant(9), &zero, &one, &one, &one);
    assert!(!evaluator.is_satisfied());
}

#[test]
fn evaluator_helpers() {
    let mut evaluator = Field::new();
    assert_bool(&mut evaluator, 0);
    assert_bool(&mut evaluator, 1);
    assert_zero_when(&mut evaluator, 0, &Field::constant(7));
    assert_zero_when(&mut evaluator, 1, &Field::constant(0));
    range_check_word(&mut evaluator, Word([0, 255, 17, 3]), 1);
    range_check_word(&mut evaluator, Word([0, 256, 17, 3]), 0);
    assert!(evaluator.is_satisfied());
    let mut evaluator = Field::new();
    assert_bool(&mut evaluator, 2);
    assert!(!evaluator.is_satisfied());
    let mut evaluator = Field::new();
    assert_zero_when(&mut evaluator, 1, &Field::constant(7));
    assert!(!evaluator.is_satisfied());
    let mut evaluator = Field::new();
    range_check_word(&mut evaluator, Word([0, 256, 17, 3]), 1);
    assert!(!evaluator.is_satisfied());
}

#[test]
fn evaluator_in_a_degenerate_field_is_never_satisfied() {
    let mut evaluator = RowEvaluator::<0>::new();
    evaluator.assert_zero(&RowEvaluator::<0>::constant(0));
    assert!(!evaluator.is_satisfied());
}

#[test]
fn memory_columns_of_a_read() {
    let mut events = Vec::new();
    let mut cols = MemoryReadCols::<u32>::zeroed();
    let record =
        MemoryReadRecord { value: 0x0102_0304, shard: 2, timestamp: 9, prev_shard: 2, prev_timestamp: 4 };
    cols.populate(record, &mut events);
    assert_eq!(cols.access.value.0, [4, 3, 2, 1]);
    assert_eq!(cols.access.prev_shard, 2);
    assert_eq!(cols.access.prev_clk, 4);
    assert_eq!(cols.access.use_clk_comparison, 1);
    assert_eq!(cols.access.prev_time_value, 4);
    assert_eq!(cols.access.current_time_value, 9);
    assert_eq!(events, vec![FieldEvent { ltu: true, b: 4, c: 9 }]);

    let mut evaluator = Field::new();
    eval_memory_access(
        &mut evaluator,
        2,
        &Field::constant(9),
        &Field::constant(0x40),
        &cols.access.value,
        &cols.access,
        1,
    );
    assert!(evaluator.is_satisfied());
    let seen = evaluator.memory_interactions();
    assert_eq!(seen.len(), 2);
    assert!(seen[0].consumed);
    assert_eq!((seen[0].shard, seen[0].clk, seen[0].addr), (2, 4, 0x40));
    assert_eq!(seen[0].value, [4, 3, 2, 1]);
    assert!(!seen[1].consumed);
    assert_eq!((seen[1].shard, seen[1].clk, seen[1].addr), (2, 9, 0x40));
    assert_eq!(seen[1].multiplicity, 1);

    // The row must carry the stamp of its record.
    let mut evaluator = Field::new();
    eval_memory_access(
        &mut evaluator,
        2,
        &Field::constant(8),
        &Field::constant(0x40),
        &cols.access.value,
        &cols.access,
        1,
    );
    assert!(!evaluator.is_satisfied());
}

#[test]
fn memory_columns_of_a_write_across_shards() {
    let mut events = Vec::new();
    let mut cols = MemoryWriteCols::<u32>::zeroed();
    let record = MemoryWriteRecord {
        value: 7,
        shard: 5,
        timestamp: 1,
        prev_value: 0xff00,
        prev_shard: 3,
        prev_timestamp: 100,
    };
    cols.populate(record, &mut events);
    assert_eq!(cols.prev_value.0, [0, 0xff, 0, 0]);
    assert_eq!(cols.access.value.0, [7, 0, 0, 0]);
    assert_eq!(cols.access.use_clk_comparison, 0);
    assert_eq!(cols.access.prev_time_value, 3);
    assert_eq!(cols.access.current_time_value, 5);
    assert_eq!(events, vec![FieldEvent { ltu: true, b: 3, c: 5 }]);
    let mut evaluator = Field::new();
    eval_memory_access(
        &mut evaluator,
        5,
        &Field::constant(1),
        &Field::constant(0),
        &cols.prev_value,
        &cols.access,
        1,
    );
    assert!(evaluator.is_satisfied());
    assert_eq!(evaluator.memory_interactions()[0].value, [0, 0xff, 0, 0]);
    assert_eq!(evaluator.memory_interactions()[1].value, [7, 0, 0, 0]);
}

#[test]
fn padded_row_counts() {
    let expected = [
        (0usize, 4usize),
        (1, 4),
        (2, 4),
        (3, 4),
        (4, 4),
        (5, 8),
        (8, 8),
        (9, 16),
        (1000, 1024),
        (1024, 1024),
        (1025, 2048),
        (0x4000_0000, 0x4000_0000),
    ];
    for (n, padded) in expected {
        assert_eq!(padded_row_count(n), padded);
        assert!(padded.is_power_of_two());
    }
    for n in 0..70usize {
        let mut rows = vec![1u8; n];
        pad_rows(&mut rows, 0u8);
        assert_eq!(rows.len(), padded_row_count(n));
        assert!(rows[..n].iter().all(|row| *row == 1));
        assert!(rows[n..].iter().all(|row| *row == 0));
    }
}

#[test]
fn limbs_of_bytes() {
    assert_eq!(Limbs::<u8>::zero().0, [0u8; 32]);
    let short = Limbs::<u8>::from_bytes(&vec![1, 2, 3]).unwrap();
    assert_eq!(&short.0[..4], &[1, 2, 3, 0]);
    assert_eq!(short.to_bytes().len(), 32);
    assert!(short.same(&Limbs::<u8>::from_bytes(&vec![1, 2, 3, 0, 0]).unwrap()));
    assert!(!short.same(&Limbs::<u8>::zero()));
    let mut long = vec![0u8; 40];
    long[31] = 9;
    assert_eq!(Limbs::<u8>::from_bytes(&long).unwrap().0[31], 9);
    long[32] = 1;
    assert!(Limbs::<u8>::from_bytes(&long).is_none());
    assert!(Limbs::<u8>::from_bytes(&vec![]).unwrap().same(&Limbs::<u8>::zero()));
}
