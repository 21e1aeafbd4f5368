use std::collections::HashMap;
use symbolic_polynomials::{
    ceil, deduce_values, floor, max, min, variable, DeductionError, Polynomial,
};

const A: u16 = 0;
const B: u16 = 1;
const C: u16 = 2;

fn values(a: i64, b: i64, c: i64) -> HashMap<u16, i64> {
    let mut values = HashMap::new();
    values.insert(A, a);
    values.insert(B, b);
    values.insert(C, c);
    values
}

#[test]
fn five_b_plus_two_evaluates_to_twelve() {
    let b = variable(B);
    let p = 5 * &b + 2;
    assert_eq!(p.eval(&values(3, 2, 5)), Ok(12));
}

#[test]
fn a_times_b_evaluates_to_six() {
    let a = variable(A);
    let b = variable(B);
    assert_eq!((&a * &b).eval(&values(3, 2, 5)), Ok(6));
}

#[test]
fn product_of_sums_evaluates_to_twenty_eight() {
    let a = variable(A);
    let b = variable(B);
    let c = variable(C);
    let p = &(&a + 1) * &(&b + &c);
    assert_eq!(p.eval(&values(3, 2, 5)), Ok(28));
    assert_eq!(p, &a * &b + &a * &c + &b + &c);
}

#[test]
fn floor_and_ceil_of_squares() {
    let a = variable(A);
    let b = variable(B);
    let f = floor(&(&a * &a), &(&b * &b));
    let c = ceil(&(&a * &a), &(&b * &b));
    assert_eq!(f.eval(&values(3, 2, 5)), Ok(2));
    assert_eq!(c.eval(&values(3, 2, 5)), Ok(3));
}

#[test]
fn max_and_min_of_two_polynomials() {
    let a = variable(A);
    let b = variable(B);
    let left = &a * &b + 12;
    let right = &a * &b + &a;
    assert_eq!(max(&left, &right).eval(&values(3, 2, 5)), Ok(18));
    assert_eq!(min(&left, &right).eval(&values(3, 2, 5)), Ok(9));
}

fn system(t1: i64, t2: i64, t3: i64) -> Vec<(Polynomial, i64)> {
    let a = variable(A);
    let b = variable(B);
    let c = variable(C);
    vec![
        (a.clone(), t1),
        (2 * &a * &b + 1, t2),
        (5 * &a * &a * &b * &b * &c * &c + &a * &a * &b + 3, t3),
    ]
}

#[test]
fn deduction_finds_all_three_values() {
    // 5 * 25 * 9 * 64 + 25 * 3 + 3
    let found = deduce_values(&system(5, 31, 72078)).unwrap();
    assert_eq!(found, values(5, 3, 8));
}

#[test]
fn deduction_rejects_an_inconsistent_target() {
    // 1125 * c^2 + 78 = 18807 has no integer solution.
    assert_eq!(
        deduce_values(&system(5, 31, 18807)),
        Err(DeductionError::NoIntegerSolution {
            identifier: C,
            coefficient: 1125,
            power: 2,
            constant: 78,
            target: 18807,
        })
    );
    // 2 * 5 * b + 1 = 32 has no integer solution.
    assert_eq!(
        deduce_values(&system(5, 32, 72078)),
        Err(DeductionError::NoIntegerSolution {
            identifier: B,
            coefficient: 10,
            power: 1,
            constant: 1,
            target: 32,
        })
    );
    // With a = 6 the second equation gives no integer b.
    assert!(deduce_values(&system(6, 31, 72078)).is_err());
}

#[test]
fn deduction_names_a_contradiction() {
    let a = variable(A);
    let system = vec![(a.clone(), 5), (&a + 1, 7)];
    let error = deduce_values(&system).unwrap_err();
    assert_eq!(
        error,
        DeductionError::Contradiction { polynomial: &a + 1, target: 7, value: 6 }
    );
    assert_eq!(error.message(), "Value deduction failed for 0 + 1 = 7, as it was deduced to 6.");
}
