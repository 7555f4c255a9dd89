use precompile_chips::blake3::g::{GOperation, NUM_G_COLS};
use precompile_chips::builder::ConstraintBuilder;
use precompile_chips::evaluator::RowEvaluator;
use precompile_chips::record::ExecutionRecord;
use precompile_chips::word::Word;

const BABY_BEAR: u32 = 2013265921;

fn reference_g(input: [u32; 6]) -> [u32; 4] {
    let mut a = input[0];
    let mut b = input[1];
    let mut c = input[2];
    let mut d = input[3];
    let x = input[4];
    let y = input[5];
    a = a.wrapping_add(b).wrapping_add(x);
    d = (d ^ a).rotate_right(16);
    c = c.wrapping_add(d);
    b = (b ^ c).rotate_right(12);
    a = a.wrapping_add(b).wrapping_add(y);
    d = (d ^ a).rotate_right(8);
    c = c.wrapping_add(d);
    b = (b ^ c).rotate_right(7);
    [a, b, c, d]
}

fn words(input: [u32; 6]) -> [Word<u32>; 6] {
    [
        Word::from_u32(input[0]),
        Word::from_u32(input[1]),
        Word::from_u32(input[2]),
        Word::from_u32(input[3]),
        Word::from_u32(input[4]),
        Word::from_u32(input[5]),
    ]
}

#[test]
fn g_of_zero_is_zero() {
    let mut record = ExecutionRecord::new();
    let mut cols = GOperation::<u32>::default();
    let result = cols.populate(&mut record, [0, 0, 0, 0, 0, 0]);
    assert_eq!(result, [0, 0, 0, 0]);
    for word in cols.result.iter() {
        assert_eq!(word.0, [0, 0, 0, 0]);
    }
}

#[test]
fn g_matches_reference() {
    let inputs: [[u32; 6]; 4] = [
        [1, 2, 3, 4, 5, 6],
        [0xffff_ffff, 0xffff_ffff, 0xffff_ffff, 0xffff_ffff, 0xffff_ffff, 0xffff_ffff],
        [0x6a09e667, 0xbb67ae85, 0x3c6ef372, 0xa54ff53a, 0x510e527f, 0x9b05688c],
        [0xdead_beef, 0x0123_4567, 0x89ab_cdef, 0x8000_0000, 0x7fff_ffff, 0x0000_0001],
    ];
    for input in inputs {
        let mut record = ExecutionRecord::new();
        let mut cols = GOperation::<u32>::default();
        let result = cols.populate(&mut record, input);
        assert_eq!(result, reference_g(input));
    }
}

#[test]
fn g_known_value() {
    let mut record = ExecutionRecord::new();
    let mut cols = GOperation::<u32>::default();
    let result = cols.populate(&mut record, [1, 2, 3, 4, 5, 6]);
    assert_eq!(result, reference_g([1, 2, 3, 4, 5, 6]));
    assert_eq!(record.byte_lookup_events.len(), 6 * 6 + 4 * 4 + 2 * 4);
}

#[test]
fn g_rows_pass_the_evaluator() {
    let input = [0x6a09e667, 0xbb67ae85, 0x3c6ef372, 0xa54ff53a, 0x510e527f, 0x9b05688c];
    let mut record = ExecutionRecord::new();
    let mut cols = GOperation::<u32>::default();
    cols.populate(&mut record, input);
    let mut evaluator = RowEvaluator::<BABY_BEAR>::new();
    GOperation::<u32>::eval(&mut evaluator, words(input), cols, 1);
    assert!(evaluator.is_satisfied());
}

#[test]
fn g_padding_row_passes_the_evaluator() {
    let cols = GOperation::<u32>::default();
    let mut evaluator = RowEvaluator::<BABY_BEAR>::new();
    GOperation::<u32>::eval(&mut evaluator, words([0; 6]), cols, 0);
    assert!(evaluator.is_satisfied());
}

#[test]
fn g_evaluator_rejects_a_wrong_result() {
    let input = [1, 2, 3, 4, 5, 6];
    let mut record = ExecutionRecord::new();
    let mut cols = GOperation::<u32>::default();
    cols.populate(&mut record, input);
    cols.result[0].0[0] ^= 1;
    let mut evaluator = RowEvaluator::<BABY_BEAR>::new();
    GOperation::<u32>::eval(&mut evaluator, words(input), cols, 1);
    assert!(!evaluator.is_satisfied());
}

#[test]
fn g_evaluator_rejects_a_wrong_carry() {
    let input = [0xffff_ffff, 1, 3, 4, 5, 6];
    let mut record = ExecutionRecord::new();
    let mut cols = GOperation::<u32>::default();
    cols.populate(&mut record, input);
    cols.a_plus_b.carry[0] = 0;
    let mut evaluator = RowEvaluator::<BABY_BEAR>::new();
    GOperation::<u32>::eval(&mut evaluator, words(input), cols, 1);
    assert!(!evaluator.is_satisfied());
}

#[test]
fn g_row_round_trips_through_its_cells() {
    let input = [0x6a09e667, 0xbb67ae85, 0x3c6ef372, 0xa54ff53a, 0x510e527f, 0x9b05688c];
    let mut record = ExecutionRecord::new();
    let mut cols = GOperation::<u32>::default();
    let result = cols.populate(&mut record, input);
    let mut row = vec![7u32; 3];
    cols.append_to(&mut row);
    row.push(9);
    assert_eq!(row.len(), 3 + NUM_G_COLS + 1);
    assert_eq!(NUM_G_COLS, 98);
    let back = GOperation::<u32>::from_row(&row, 3);
    let mut again = Vec::new();
    back.append_to(&mut again);
    assert_eq!(&row[3..3 + NUM_G_COLS], &again[..]);
    for (word, expected) in back.result.iter().zip(result.iter()) {
        assert_eq!(word.0, Word::from_u32(*expected).0);
    }
    // The result is the last sixteen cells.
    assert_eq!(&again[82..86], &Word::from_u32(result[0]).0);
    let mut evaluator = RowEvaluator::<BABY_BEAR>::new();
    GOperation::<u32>::eval(&mut evaluator, words(input), back, 1);
    assert!(evaluator.is_satisfied());
}
