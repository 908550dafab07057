use binius_field::circuit::{ArithCircuitPoly, Error, Expr};
use binius_field::field::PackedTowerVector;

/// Tower levels of the scalar types used below.
const LEVEL_1B: usize = 0;
const LEVEL_8B: usize = 3;
const LEVEL_16B: usize = 4;
const LEVEL_128B: usize = 7;

fn felts(values: &[u128]) -> Vec<u128> {
    values.to_vec()
}

#[test]
fn test_const() {
    fn assert_valid_const_circuit(f_level: usize, p_level: usize, value: u128) {
        let circuit = ArithCircuitPoly::new(vec![Expr::Const(value)], f_level);
        assert_eq!(circuit.binary_tower_level(), f_level);
        assert_eq!(circuit.degree(), 0);
        assert_eq!(circuit.n_vars(), 0);
        assert_eq!(
            circuit.evaluate(&vec![], p_level).unwrap(),
            PackedTowerVector::broadcast(value, p_level)
        );
    }

    assert_valid_const_circuit(LEVEL_1B, 0, 1);
    assert_valid_const_circuit(LEVEL_1B, LEVEL_16B, 1);
    assert_valid_const_circuit(LEVEL_8B, LEVEL_16B, 13);
    assert_valid_const_circuit(LEVEL_128B, LEVEL_128B, 0xFFFFFFFFFFFFFFFFFFFFFFFFFFFFFFFF);
}

#[test]
fn test_var() {
    let circuit = ArithCircuitPoly::new(vec![Expr::Var(0)], LEVEL_8B);
    assert_eq!(circuit.binary_tower_level(), LEVEL_8B);
    assert_eq!(circuit.degree(), 1);
    assert_eq!(circuit.n_vars(), 1);
    assert_eq!(
        circuit
            .evaluate(
                &vec![PackedTowerVector::from_scalars(
                    &felts(&[0, 1, 2, 3, 122, 123, 124, 125]),
                    LEVEL_16B
                )],
                LEVEL_16B
            )
            .unwrap(),
        PackedTowerVector::from_scalars(&felts(&[0, 1, 2, 3, 122, 123, 124, 125]), LEVEL_16B)
    );
}

#[test]
fn test_add() {
    let circuit = ArithCircuitPoly::new(
        vec![Expr::Const(123), Expr::Var(0), Expr::Add(0, 1)],
        LEVEL_8B,
    );
    assert_eq!(circuit.binary_tower_level(), LEVEL_8B);
    assert_eq!(circuit.degree(), 1);
    assert_eq!(circuit.n_vars(), 1);
    assert_eq!(
        circuit
            .evaluate(
                &vec![PackedTowerVector::from_scalars(
                    &felts(&[0, 1, 2, 3, 122, 123, 124, 125]),
                    LEVEL_16B
                )],
                LEVEL_16B
            )
            .unwrap(),
        PackedTowerVector::from_scalars(&felts(&[123, 122, 121, 120, 1, 0, 7, 6]), LEVEL_16B)
    );
}

#[test]
fn test_mul() {
    let circuit = ArithCircuitPoly::new(
        vec![Expr::Const(123), Expr::Var(0), Expr::Mul(0, 1)],
        LEVEL_8B,
    );
    assert_eq!(circuit.binary_tower_level(), LEVEL_8B);
    assert_eq!(circuit.degree(), 1);
    assert_eq!(circuit.n_vars(), 1);
    assert_eq!(
        circuit
            .evaluate(
                &vec![PackedTowerVector::from_scalars(
                    &felts(&[0, 1, 2, 3, 122, 123, 124, 125]),
                    LEVEL_16B
                )],
                LEVEL_16B
            )
            .unwrap(),
        PackedTowerVector::from_scalars(&felts(&[0, 123, 157, 230, 85, 46, 154, 225]), LEVEL_16B)
    );
}

#[test]
fn test_pow() {
    let circuit = ArithCircuitPoly::new(vec![Expr::Var(0), Expr::Pow(0, 13)], LEVEL_8B);
    assert_eq!(circuit.binary_tower_level(), LEVEL_8B);
    assert_eq!(circuit.degree(), 13);
    assert_eq!(circuit.n_vars(), 1);
    assert_eq!(
        circuit
            .evaluate(
                &vec![PackedTowerVector::from_scalars(
                    &felts(&[0, 1, 2, 3, 122, 123, 124, 125]),
                    LEVEL_16B
                )],
                LEVEL_16B
            )
            .unwrap(),
        PackedTowerVector::from_scalars(&felts(&[0, 1, 2, 3, 200, 52, 51, 115]), LEVEL_16B)
    );
}

#[test]
fn test_mixed() {
    let circuit = ArithCircuitPoly::new(
        vec![
            Expr::Var(0),
            Expr::Var(1),
            Expr::Const(123),
            Expr::Pow(0, 2),
            Expr::Add(1, 2),
            Expr::Mul(3, 4),
        ],
        LEVEL_8B,
    );

    assert_eq!(circuit.binary_tower_level(), LEVEL_8B);
    assert_eq!(circuit.degree(), 3);
    assert_eq!(circuit.n_vars(), 2);
    assert_eq!(
        circuit
            .evaluate(
                &vec![
                    PackedTowerVector::from_scalars(&felts(&[0, 1, 2, 3, 4, 5, 6, 7]), LEVEL_16B),
                    PackedTowerVector::from_scalars(
                        &felts(&[100, 101, 102, 103, 104, 105, 106, 107]),
                        LEVEL_16B
                    )
                ],
                LEVEL_16B
            )
            .unwrap(),
        PackedTowerVector::from_scalars(&felts(&[0, 30, 59, 36, 151, 140, 170, 176]), LEVEL_16B)
    );
}

#[test]
fn evaluate_rejects_wrong_query_size() {
    let circuit = ArithCircuitPoly::new(vec![Expr::Var(0), Expr::Var(1), Expr::Add(0, 1)], LEVEL_8B);
    let x = PackedTowerVector::broadcast(5, LEVEL_16B);
    assert_eq!(
        circuit.evaluate(&vec![x], LEVEL_16B),
        Err(Error::IncorrectQuerySize { expected: 2 })
    );
    assert_eq!(circuit.evaluate(&vec![x, x], LEVEL_16B).unwrap(), PackedTowerVector::broadcast(0, LEVEL_16B));
}

#[test]
fn pow_by_squaring_matches_repeated_multiplication() {
    let x = PackedTowerVector::from_scalars(&felts(&[0, 1, 2, 3, 122, 123, 124, 125]), LEVEL_16B);
    let one = PackedTowerVector::broadcast(1, LEVEL_16B);
    let mut acc = one;
    for e in 0..40u64 {
        assert_eq!(x.pow(e), acc);
        acc = acc.mul(x);
    }
    assert_eq!(x.pow(0), one);
    assert_eq!(x.pow(1), x);
    let p13 = x.pow(13);
    let expected = [0, 1, 2, 3, 200, 52, 51, 115];
    for i in 0..8 {
        assert_eq!(p13.get(i), expected[i]);
    }
}

#[test]
fn circuit_sums_commute_and_associate() {
    let a = PackedTowerVector::from_scalars(&felts(&[0, 1, 2, 3, 122, 123, 124, 125]), LEVEL_16B);
    let b = PackedTowerVector::from_scalars(&felts(&[9, 8, 7, 6, 5, 4, 3, 2]), LEVEL_16B);
    let c = PackedTowerVector::broadcast(77, LEVEL_16B);
    let ab = ArithCircuitPoly::new(vec![Expr::Var(0), Expr::Var(1), Expr::Add(0, 1)], LEVEL_8B);
    let ba = ArithCircuitPoly::new(vec![Expr::Var(0), Expr::Var(1), Expr::Add(1, 0)], LEVEL_8B);
    assert_eq!(ab.evaluate(&vec![a, b], LEVEL_16B), ba.evaluate(&vec![a, b], LEVEL_16B));
    let left = ArithCircuitPoly::new(
        vec![Expr::Var(0), Expr::Var(1), Expr::Var(2), Expr::Add(1, 2), Expr::Add(0, 3)],
        LEVEL_8B,
    );
    let right = ArithCircuitPoly::new(
        vec![Expr::Var(0), Expr::Var(1), Expr::Var(2), Expr::Add(0, 1), Expr::Add(3, 2)],
        LEVEL_8B,
    );
    assert_eq!(
        left.evaluate(&vec![a, b, c], LEVEL_16B),
        right.evaluate(&vec![a, b, c], LEVEL_16B)
    );
    assert_eq!(left.evaluate(&vec![a, b, c], LEVEL_16B).unwrap(), a.add(b).add(c));
}

#[test]
fn circuit_adds_zero_and_doubles_to_zero() {
    let a = PackedTowerVector::from_scalars(&felts(&[0, 1, 2, 3, 122, 123, 124, 125]), LEVEL_16B);
    let plus_zero =
        ArithCircuitPoly::new(vec![Expr::Var(0), Expr::Const(0), Expr::Add(0, 1)], LEVEL_8B);
    assert_eq!(plus_zero.evaluate(&vec![a], LEVEL_16B), Ok(a));
    let doubled = ArithCircuitPoly::new(vec![Expr::Var(0), Expr::Add(0, 0)], LEVEL_8B);
    assert_eq!(
        doubled.evaluate(&vec![a], LEVEL_16B),
        Ok(PackedTowerVector::broadcast(0, LEVEL_16B))
    );
}
