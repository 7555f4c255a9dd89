use num::BigUint;
use precompile_chips::builder::ConstraintBuilder;
use precompile_chips::evaluator::RowEvaluator;
use precompile_chips::curve::{EllipticCurve, Secp256k1};
use precompile_chips::limbs::Limbs;
use precompile_chips::memory::{MemoryReadRecord, MemoryWriteRecord};
use precompile_chips::record::ExecutionRecord;
use precompile_chips::weierstrass::weierstrass_add::{
    ECAddEvent, TraceError, WeierstrassAddAssignChip, WeierstrassAddAssignCols,
    NUM_WEIERSTRASS_ADD_COLS,
};

const BABY_BEAR: u32 = 2013265921;

// The generator of secp256k1.
const G: [u8; 64] = [
    152, 23, 248, 22, 91, 129, 242, 89, 217, 40, 206, 45, 219, 252, 155, 2, 7, 11, 135, 206, 149,
    98, 160, 85, 172, 187, 220, 249, 126, 102, 190, 121, 184, 212, 16, 251, 143, 208, 71, 156, 25,
    84, 133, 166, 72, 180, 23, 253, 168, 8, 17, 14, 252, 251, 164, 93, 101, 196, 163, 38, 119,
    218, 58, 72,
];

// Twice the generator.
const G2: [u8; 64] = [
    229, 158, 112, 92, 185, 9, 172, 171, 167, 60, 239, 140, 75, 142, 119, 92, 216, 124, 192, 149,
    110, 64, 69, 48, 109, 125, 237, 65, 148, 127, 4, 198, 42, 229, 207, 80, 169, 49, 100, 35, 225,
    208, 102, 50, 101, 50, 246, 247, 238, 234, 108, 70, 25, 132, 197, 163, 57, 195, 61, 166, 254,
    104, 225, 26,
];

// Three times the generator.
const G3: [u8; 64] = [
    249, 54, 224, 188, 19, 241, 1, 134, 176, 153, 111, 131, 69, 200, 49, 181, 41, 82, 157, 248,
    133, 79, 52, 73, 16, 195, 88, 146, 1, 138, 48, 249, 114, 230, 184, 132, 117, 253, 185, 108,
    27, 35, 194, 52, 153, 169, 0, 101, 86, 243, 55, 42, 230, 55, 227, 15, 20, 232, 45, 99, 15,
    123, 143, 56,
];

const X3_RESULT: usize = 1306;
const Y3_RESULT: usize = 1682;

fn words(bytes: &[u8; 64]) -> [u32; 16] {
    let mut out = [0u32; 16];
    for i in 0..16 {
        out[i] = u32::from_le_bytes([
            bytes[4 * i],
            bytes[4 * i + 1],
            bytes[4 * i + 2],
            bytes[4 * i + 3],
        ]);
    }
    out
}

fn event(p: &[u8; 64], q: &[u8; 64], sum: &[u8; 64], shard: u32, clk: u32) -> ECAddEvent {
    let p_words = words(p);
    let q_words = words(q);
    let sum_words = words(sum);
    let p_ptr = 0x1000;
    let q_ptr = 0x2000;
    let mut p_memory_records = [MemoryWriteRecord {
        value: 0,
        shard,
        timestamp: clk + 4,
        prev_value: 0,
        prev_shard: shard,
        prev_timestamp: clk - 1,
    }; 16];
    let mut q_memory_records = [MemoryReadRecord {
        value: 0,
        shard,
        timestamp: clk,
        prev_shard: shard - 1,
        prev_timestamp: clk + 100,
    }; 16];
    for i in 0..16 {
        p_memory_records[i].value = sum_words[i];
        p_memory_records[i].prev_value = p_words[i];
        q_memory_records[i].value = q_words[i];
    }
    ECAddEvent {
        shard,
        clk,
        p_ptr,
        p: p_words,
        q_ptr,
        q: q_words,
        q_ptr_record: MemoryReadRecord {
            value: q_ptr,
            shard,
            timestamp: clk,
            prev_shard: shard,
            prev_timestamp: clk - 2,
        },
        p_memory_records,
        q_memory_records,
    }
}

fn record_of(events: Vec<ECAddEvent>) -> ExecutionRecord {
    let mut record = ExecutionRecord::new();
    record.weierstrass_add_events = events;
    record
}

fn bytes_at(values: &[u32], start: usize) -> Vec<u8> {
    values[start..start + 32].iter().map(|cell| *cell as u8).collect()
}

fn evaluate_row(row: &[u32]) -> RowEvaluator<BABY_BEAR> {
    let chip = WeierstrassAddAssignChip::<Secp256k1>::new();
    let cols = WeierstrassAddAssignCols::<u32>::from_row(row);
    let mut evaluator = RowEvaluator::<BABY_BEAR>::new();
    chip.eval(&mut evaluator, &cols);
    evaluator
}

fn negate(point: &[u8; 64]) -> [u8; 64] {
    let modulus = BigUint::from_bytes_le(&Secp256k1::modulus().0);
    let y = BigUint::from_bytes_le(&point[32..]);
    let mut bytes = (modulus - y).to_bytes_le();
    bytes.resize(32, 0);
    let mut out = *point;
    out[32..].copy_from_slice(&bytes);
    out
}

#[test]
fn test_secp256k1_add_simple() {
    let chip = WeierstrassAddAssignChip::<Secp256k1>::new();
    let input = record_of(vec![event(&G, &G2, &G3, 1, 100); 4]);
    let mut output = ExecutionRecord::new();
    let trace = chip.generate_trace(&input, &mut output).unwrap();
    assert_eq!(trace.width, NUM_WEIERSTRASS_ADD_COLS);
    assert_eq!(trace.values.len(), 4 * NUM_WEIERSTRASS_ADD_COLS);
    for row in trace.values.chunks(NUM_WEIERSTRASS_ADD_COLS) {
        assert_eq!(row[0], 1);
        assert_eq!(bytes_at(row, X3_RESULT), G3[..32].to_vec());
        assert_eq!(bytes_at(row, Y3_RESULT), G3[32..].to_vec());
        let evaluator = evaluate_row(row);
        assert!(evaluator.is_satisfied());
        assert_eq!(evaluator.memory_interactions().len(), 2 * 33);
    }
    assert_eq!(output.field_events.len(), 4 * 33);
}

#[test]
fn weierstrass_add_is_the_chord() {
    let chip = WeierstrassAddAssignChip::<Secp256k1>::new();
    let input = record_of(vec![event(&G2, &G, &G3, 3, 7)]);
    let mut output = ExecutionRecord::new();
    let trace = chip.generate_trace(&input, &mut output).unwrap();
    let row = &trace.values[..NUM_WEIERSTRASS_ADD_COLS];
    assert_eq!(bytes_at(row, X3_RESULT), G3[..32].to_vec());
    assert_eq!(bytes_at(row, Y3_RESULT), G3[32..].to_vec());
    assert!(evaluate_row(row).is_satisfied());
}

#[test]
fn weierstrass_trace_is_padded_to_a_power_of_two() {
    let chip = WeierstrassAddAssignChip::<Secp256k1>::new();
    for (events, rows) in [(0usize, 4usize), (1, 4), (2, 4), (3, 4), (4, 4), (5, 8), (8, 8), (9, 16)] {
        let input = record_of(vec![event(&G, &G2, &G3, 1, 100); events]);
        let mut output = ExecutionRecord::new();
        let trace = chip.generate_trace(&input, &mut output).unwrap();
        assert_eq!(trace.values.len(), rows * NUM_WEIERSTRASS_ADD_COLS);
        for (i, row) in trace.values.chunks(NUM_WEIERSTRASS_ADD_COLS).enumerate() {
            assert_eq!(row[0], if i < events { 1 } else { 0 });
        }
        assert_eq!(output.field_events.len(), events * 33);
    }
}

#[test]
fn weierstrass_padding_row_passes_the_evaluator() {
    let chip = WeierstrassAddAssignChip::<Secp256k1>::new();
    let input = record_of(vec![]);
    let mut output = ExecutionRecord::new();
    let trace = chip.generate_trace(&input, &mut output).unwrap();
    for row in trace.values.chunks(NUM_WEIERSTRASS_ADD_COLS) {
        assert!(row.iter().take(366).all(|cell| *cell == 0));
        assert_eq!(bytes_at(row, X3_RESULT), vec![0u8; 32]);
        assert_eq!(bytes_at(row, Y3_RESULT), vec![0u8; 32]);
        assert!(evaluate_row(row).is_satisfied());
    }
}

#[test]
fn weierstrass_evaluator_rejects_a_wrong_sum() {
    let chip = WeierstrassAddAssignChip::<Secp256k1>::new();
    let input = record_of(vec![event(&G, &G2, &G2, 1, 100)]);
    let mut output = ExecutionRecord::new();
    let trace = chip.generate_trace(&input, &mut output).unwrap();
    let row = &trace.values[..NUM_WEIERSTRASS_ADD_COLS];
    assert_eq!(bytes_at(row, X3_RESULT), G3[..32].to_vec());
    assert!(!evaluate_row(row).is_satisfied());
}

#[test]
fn weierstrass_evaluator_rejects_a_wrong_witness() {
    let chip = WeierstrassAddAssignChip::<Secp256k1>::new();
    let input = record_of(vec![event(&G, &G2, &G3, 1, 100)]);
    let mut output = ExecutionRecord::new();
    let trace = chip.generate_trace(&input, &mut output).unwrap();
    let mut row = trace.values[..NUM_WEIERSTRASS_ADD_COLS].to_vec();
    row[742] ^= 1;
    assert!(!evaluate_row(&row).is_satisfied());
}

#[test]
fn weierstrass_evaluator_rejects_a_late_stamp() {
    let chip = WeierstrassAddAssignChip::<Secp256k1>::new();
    let mut late = event(&G, &G2, &G3, 1, 100);
    late.q_ptr_record.prev_timestamp = 100;
    let input = record_of(vec![late]);
    let mut output = ExecutionRecord::new();
    let trace = chip.generate_trace(&input, &mut output).unwrap();
    assert!(!evaluate_row(&trace.values[..NUM_WEIERSTRASS_ADD_COLS]).is_satisfied());
}

#[test]
fn weierstrass_add_of_equal_points_has_slope_zero() {
    // The chord through a point and itself is not defined; the chip takes the
    // slope to be zero, so the row holds (-2x, -y).
    let modulus = BigUint::from_bytes_le(&Secp256k1::modulus().0);
    let x = BigUint::from_bytes_le(&G[..32]);
    let y = BigUint::from_bytes_le(&G[32..]);
    let expected_x = (&modulus + &modulus - &x - &x) % &modulus;
    let expected_y = &modulus - &y;
    let mut sum = [0u8; 64];
    let mut x_bytes = expected_x.to_bytes_le();
    x_bytes.resize(32, 0);
    let mut y_bytes = expected_y.to_bytes_le();
    y_bytes.resize(32, 0);
    sum[..32].copy_from_slice(&x_bytes);
    sum[32..].copy_from_slice(&y_bytes);

    let chip = WeierstrassAddAssignChip::<Secp256k1>::new();
    let input = record_of(vec![event(&G, &G, &sum, 1, 100)]);
    let mut output = ExecutionRecord::new();
    let trace = chip.generate_trace(&input, &mut output).unwrap();
    let row = &trace.values[..NUM_WEIERSTRASS_ADD_COLS];
    assert_eq!(bytes_at(row, X3_RESULT), x_bytes);
    assert_eq!(bytes_at(row, Y3_RESULT), y_bytes);
    assert!(evaluate_row(row).is_satisfied());
}

#[test]
fn weierstrass_add_of_opposite_points_has_no_row() {
    let chip = WeierstrassAddAssignChip::<Secp256k1>::new();
    let opposite = negate(&G);
    let input = record_of(vec![event(&G2, &G, &G3, 1, 100), event(&G, &opposite, &G, 1, 200)]);
    let mut output = ExecutionRecord::new();
    match chip.generate_trace(&input, &mut output) {
        Err(error) => assert_eq!(error, TraceError::UndefinedAddition(1)),
        Ok(_) => panic!("a chord through opposite points has no slope"),
    }
    assert_eq!(output.field_events.len(), 0);
}

#[test]
fn weierstrass_add_of_the_zero_tuple_is_the_zero_tuple() {
    let chip = WeierstrassAddAssignChip::<Secp256k1>::new();
    let zero = [0u8; 64];
    let input = record_of(vec![event(&zero, &zero, &zero, 1, 100)]);
    let mut output = ExecutionRecord::new();
    let trace = chip.generate_trace(&input, &mut output).unwrap();
    let row = &trace.values[..NUM_WEIERSTRASS_ADD_COLS];
    assert_eq!(row[0], 1);
    assert_eq!(bytes_at(row, X3_RESULT), vec![0u8; 32]);
    assert_eq!(bytes_at(row, Y3_RESULT), vec![0u8; 32]);
    assert!(evaluate_row(row).is_satisfied());
}

#[test]
fn weierstrass_rejects_a_coordinate_that_is_not_reduced() {
    let chip = WeierstrassAddAssignChip::<Secp256k1>::new();
    let mut large = G2;
    for byte in large[32..].iter_mut() {
        *byte = 255;
    }
    let input = record_of(vec![event(&G, &large, &G3, 1, 100)]);
    let mut output = ExecutionRecord::new();
    assert!(matches!(
        chip.generate_trace(&input, &mut output),
        Err(TraceError::UndefinedAddition(0))
    ));
}

#[test]
fn weierstrass_row_round_trips_through_its_cells() {
    let mut cols = WeierstrassAddAssignCols::<u32>::zeroed();
    let x = Limbs::<u8>(core::array::from_fn(|i| G[i]));
    let y = Limbs::<u8>(core::array::from_fn(|i| G[32 + i]));
    let qx = Limbs::<u8>(core::array::from_fn(|i| G2[i]));
    let qy = Limbs::<u8>(core::array::from_fn(|i| G2[32 + i]));
    let sum = WeierstrassAddAssignChip::<Secp256k1>::populate_field_ops(&mut cols, &x, &y, &qx, &qy)
        .unwrap();
    assert_eq!(sum.0 .0.to_vec(), G3[..32].to_vec());
    assert_eq!(sum.1 .0.to_vec(), G3[32..].to_vec());
    cols.is_real = 1;
    cols.clk = 77;
    let mut row = Vec::new();
    cols.append_to(&mut row);
    assert_eq!(row.len(), NUM_WEIERSTRASS_ADD_COLS);
    let back = WeierstrassAddAssignCols::<u32>::from_row(&row);
    let mut again = Vec::new();
    back.append_to(&mut again);
    assert_eq!(row, again);
    assert_eq!(back.clk, 77);
    assert_eq!(back.x3_ins.result.0, cols.x3_ins.result.0);
}

#[test]
fn weierstrass_chip_describes_itself() {
    let chip = WeierstrassAddAssignChip::<Secp256k1>::new();
    assert_eq!(chip.name(), "WeierstrassAddAssign");
    assert_eq!(chip.width(), 2058);
    assert_eq!(chip.num_extra_cycles(), 8);
    let mut record = ExecutionRecord::new();
    let result = chip.execute(&mut record, event(&G, &G2, &G3, 1, 100));
    assert_eq!(result, 0x1001);
    assert_eq!(record.weierstrass_add_events.len(), 1);
    assert_eq!(record.weierstrass_add_events[0].q_ptr, 0x2000);
}

/// A curve whose field has no modulus.
struct NoField;

impl EllipticCurve for NoField {
    fn modulus() -> Limbs<u8> {
        Limbs::<u8>::zero()
    }
}

#[test]
fn weierstrass_trace_without_a_modulus_cannot_be_padded() {
    let chip = WeierstrassAddAssignChip::<NoField>::new();
    let mut output = ExecutionRecord::new();
    assert!(matches!(
        chip.generate_trace(&record_of(vec![]), &mut output),
        Err(TraceError::UndefinedPadding)
    ));
    assert!(matches!(
        chip.generate_trace(&record_of(vec![event(&G, &G2, &G3, 1, 100)]), &mut output),
        Err(TraceError::UndefinedAddition(0))
    ));
}
