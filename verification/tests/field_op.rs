use num::BigUint;
use precompile_chips::builder::ConstraintBuilder;
use precompile_chips::evaluator::RowEvaluator;
use precompile_chips::curve::{EllipticCurve, Secp256k1};
use precompile_chips::limbs::Limbs;
use precompile_chips::operations::field_op::{FieldOpCols, FieldOperation};

const BABY_BEAR: u32 = 2013265921;

fn limbs(n: &BigUint) -> Limbs<u8> {
    let mut bytes = n.to_bytes_le();
    bytes.resize(32, 0);
    Limbs(core::array::from_fn(|i| bytes[i]))
}

fn number(l: &Limbs<u8>) -> BigUint {
    BigUint::from_bytes_le(&l.0)
}

fn cells(l: &Limbs<u8>) -> Limbs<u32> {
    Limbs(core::array::from_fn(|i| l.0[i] as u32))
}

fn modulus() -> BigUint {
    number(&Secp256k1::modulus())
}

fn operands() -> Vec<(BigUint, BigUint)> {
    let m = modulus();
    let a = BigUint::parse_bytes(
        b"55066263022277343669578718895168534326250603453777594175500187360389116729240",
        10,
    )
    .unwrap();
    let b = BigUint::parse_bytes(
        b"32670510020758816978083085130507043184471273380659243275938904335757337482424",
        10,
    )
    .unwrap();
    vec![
        (a.clone(), b.clone()),
        (b.clone(), a.clone()),
        (BigUint::from(0u32), BigUint::from(0u32)),
        (BigUint::from(1u32), BigUint::from(2u32)),
        (&m - 1u32, &m - 1u32),
        (a.clone(), BigUint::from(1u32)),
        (BigUint::from(0u32), b.clone()),
    ]
}

fn run(a: &BigUint, b: &BigUint, op: FieldOperation) -> Option<(BigUint, FieldOpCols<u32>)> {
    let mut cols = FieldOpCols::<u32>::zeroed();
    let result = cols.populate(&limbs(a), &limbs(b), op, &Secp256k1::modulus())?;
    let mut evaluator = RowEvaluator::<BABY_BEAR>::new();
    FieldOpCols::<u32>::eval(
        &mut evaluator,
        &cells(&limbs(a)),
        &cells(&limbs(b)),
        &cols,
        op,
        &Secp256k1::modulus(),
    );
    assert!(evaluator.is_satisfied());
    let stored: Vec<u8> = cols.result.0.iter().map(|cell| *cell as u8).collect();
    assert_eq!(BigUint::from_bytes_le(&stored), number(&result));
    Some((number(&result), cols))
}

#[test]
fn field_add_is_the_sum_reduced() {
    let m = modulus();
    for (a, b) in operands() {
        let (r, _) = run(&a, &b, FieldOperation::Add).unwrap();
        assert_eq!(r, (&a + &b) % &m);
        assert!(r < m);
    }
}

#[test]
fn field_mul_is_the_product_reduced() {
    let m = modulus();
    for (a, b) in operands() {
        let (r, cols) = run(&a, &b, FieldOperation::Mul).unwrap();
        assert_eq!(r, (&a * &b) % &m);
        assert!(r < m);
        let carry: Vec<u8> = cols.carry.0.iter().map(|cell| *cell as u8).collect();
        assert_eq!(BigUint::from_bytes_le(&carry), (&a * &b) / &m);
    }
}

#[test]
fn field_sub_gives_back_the_first_operand() {
    let m = modulus();
    for (a, b) in operands() {
        let (r, _) = run(&a, &b, FieldOperation::Sub).unwrap();
        assert_eq!((&r + &b) % &m, a);
        assert_eq!(r, (&m + &a - &b) % &m);
        assert!(r < m);
    }
}

#[test]
fn field_div_gives_back_the_first_operand() {
    let m = modulus();
    for (a, b) in operands() {
        if b == BigUint::from(0u32) {
            continue;
        }
        let (r, _) = run(&a, &b, FieldOperation::Div).unwrap();
        assert_eq!((&r * &b) % &m, a);
        assert!(r < m);
    }
}

#[test]
fn field_div_known_value() {
    // Half of one modulo the prime of secp256k1 is (p + 1) / 2.
    let m = modulus();
    let (r, _) = run(&BigUint::from(1u32), &BigUint::from(2u32), FieldOperation::Div).unwrap();
    assert_eq!(r, (&m + 1u32) / 2u32);
    let (r, _) = run(&BigUint::from(6u32), &BigUint::from(3u32), FieldOperation::Div).unwrap();
    assert_eq!(r, BigUint::from(2u32));
}

#[test]
fn field_add_known_value() {
    let m = modulus();
    let (r, cols) = run(&(&m - 1u32), &BigUint::from(3u32), FieldOperation::Add).unwrap();
    assert_eq!(r, BigUint::from(2u32));
    assert_eq!(cols.carry.0[0], 1);
    let (r, cols) = run(&BigUint::from(200u32), &BigUint::from(100u32), FieldOperation::Add).unwrap();
    assert_eq!(r, BigUint::from(300u32));
    assert_eq!(cols.result.0[0], 44);
    assert_eq!(cols.result.0[1], 1);
    assert_eq!(cols.carry.0[0], 0);
}

#[test]
fn field_div_of_zero_by_zero_is_zero() {
    let zero = BigUint::from(0u32);
    let (r, cols) = run(&zero, &zero, FieldOperation::Div).unwrap();
    assert_eq!(r, zero);
    assert!(cols.result.0.iter().all(|cell| *cell == 0));
}

#[test]
fn field_div_by_zero_has_no_witness() {
    let mut cols = FieldOpCols::<u32>::zeroed();
    let one = limbs(&BigUint::from(1u32));
    let zero = limbs(&BigUint::from(0u32));
    assert!(cols.populate(&one, &zero, FieldOperation::Div, &Secp256k1::modulus()).is_none());
    assert!(cols.result.0.iter().all(|cell| *cell == 0));
    assert!(cols.witness_low.iter().all(|cell| *cell == 0));
}

#[test]
fn field_sub_of_an_operand_that_is_not_reduced_has_no_witness() {
    let mut cols = FieldOpCols::<u32>::zeroed();
    let large = limbs(&modulus());
    let one = limbs(&BigUint::from(1u32));
    assert!(cols.populate(&large, &one, FieldOperation::Sub, &Secp256k1::modulus()).is_none());
}

#[test]
fn field_op_with_a_zero_modulus_has_no_witness() {
    let mut cols = FieldOpCols::<u32>::zeroed();
    let one = limbs(&BigUint::from(1u32));
    assert!(cols.populate(&one, &one, FieldOperation::Add, &Limbs::<u8>::zero()).is_none());
}

#[test]
fn field_op_with_a_small_modulus() {
    let seven = limbs(&BigUint::from(7u32));
    let one = limbs(&BigUint::from(1u32));
    let mut cols = FieldOpCols::<u32>::zeroed();
    let r = cols.populate(&limbs(&BigUint::from(5u32)), &limbs(&BigUint::from(3u32)), FieldOperation::Div, &seven).unwrap();
    assert_eq!(number(&r), BigUint::from(4u32));
    let r = cols.populate(&limbs(&BigUint::from(5u32)), &limbs(&BigUint::from(6u32)), FieldOperation::Mul, &seven).unwrap();
    assert_eq!(number(&r), BigUint::from(2u32));
    let r = cols.populate(&limbs(&BigUint::from(0u32)), &limbs(&BigUint::from(6u32)), FieldOperation::Div, &one).unwrap();
    assert_eq!(number(&r), BigUint::from(0u32));
    // A product whose quotient by the modulus does not fit in the limbs.
    let large = limbs(&(modulus() - 1u32));
    assert!(cols.populate(&large, &large, FieldOperation::Mul, &seven).is_none());
}

#[test]
fn field_evaluator_rejects_a_wrong_result() {
    let a = BigUint::from(123456789u32);
    let b = BigUint::from(987654321u32);
    let (_, mut cols) = run(&a, &b, FieldOperation::Mul).unwrap();
    cols.result.0[0] ^= 1;
    let mut evaluator = RowEvaluator::<BABY_BEAR>::new();
    FieldOpCols::<u32>::eval(
        &mut evaluator,
        &cells(&limbs(&a)),
        &cells(&limbs(&b)),
        &cols,
        FieldOperation::Mul,
        &Secp256k1::modulus(),
    );
    assert!(!evaluator.is_satisfied());
}
