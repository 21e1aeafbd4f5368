use std::collections::{HashMap, HashSet};
use std::rc::Rc;
use symbolic_polynomials::roots::nth_root;
use symbolic_polynomials::{
    ceil, deduce_values, floor, max, min, reduce, reduce_monomial, variable, Composite,
    DeductionError, EvalError, Monomial, Polynomial, Registry,
};

fn assignment(pairs: &[(u16, i64)]) -> HashMap<u16, i64> {
    pairs.iter().cloned().collect()
}

fn name(id: u16) -> String {
    ((b'a' + id as u8) as char).to_string()
}

#[test]
fn floor_rounds_toward_negative_infinity() {
    let cases = [(13, 3, 4), (-7, 2, -4), (7, -2, -4), (-7, -2, 3), (8, 2, 4), (-8, 2, -4), (0, 5, 0)];
    let a = variable(0);
    let b = variable(1);
    let symbolic = floor(&a, &b);
    for (x, y, expected) in cases {
        assert_eq!(floor(&Polynomial::constant(x), &Polynomial::constant(y)), expected);
        assert_eq!(symbolic.eval(&assignment(&[(0, x), (1, y)])), Ok(expected));
    }
}

#[test]
fn ceil_rounds_toward_positive_infinity() {
    let cases = [
        (13, 3, 5),
        (12, 3, 4),
        (7, 2, 4),
        (-7, -2, 4),
        (-7, 2, -3),
        (7, -2, -3),
        (-1, 2, 0),
        (1, -2, 0),
        (1, 2, 1),
        (-1, -2, 1),
        (-8, 2, -4),
        (8, -2, -4),
        (0, 5, 0),
        (0, -5, 0),
        (i64::MIN, 1, i64::MIN),
        (i64::MIN, 2, -4611686018427387904),
        (i64::MIN, i64::MIN, 1),
        (i64::MAX, i64::MIN, 0),
        (i64::MIN + 1, i64::MIN, 1),
        (i64::MAX, 2, 4611686018427387904),
        (i64::MAX, -1, -i64::MAX),
    ];
    let a = variable(0);
    let b = variable(1);
    let symbolic = ceil(&a, &b);
    for (x, y, expected) in cases {
        assert_eq!(ceil(&Polynomial::constant(x), &Polynomial::constant(y)), expected);
        assert_eq!(symbolic.eval(&assignment(&[(0, x), (1, y)])), Ok(expected));
    }
    assert_eq!(
        symbolic.eval(&assignment(&[(0, i64::MIN), (1, -1)])),
        Err(EvalError::Overflow)
    );
    assert_eq!(symbolic.eval(&assignment(&[(0, 3), (1, 0)])), Err(EvalError::DivisionByZero));
}

#[test]
fn ceil_is_floor_or_one_more() {
    let a = variable(0);
    let b = variable(1);
    let up = ceil(&a, &b);
    let down = floor(&a, &b);
    for x in -9i64..=9 {
        for y in [-4i64, -3, -2, -1, 1, 2, 3, 4] {
            let values = assignment(&[(0, x), (1, y)]);
            let f = down.eval(&values).unwrap();
            let c = up.eval(&values).unwrap();
            assert_eq!(c, if x % y == 0 { f } else { f + 1 });
            if y > 0 {
                assert!((c - 1) * y < x && x <= c * y);
            } else {
                assert!((c - 1) * y > x && x >= c * y);
            }
        }
    }
}

#[test]
fn powers_are_raised_in_evaluation() {
    let a = Monomial::variable(0);
    let cube = &(&a * &a) * &a;
    assert_eq!(cube.evaluate(&assignment(&[(0, 2)])), Ok(8));
    assert_eq!(cube.evaluate(&assignment(&[(0, -3)])), Ok(-27));
    assert_eq!((5 * &cube).evaluate(&assignment(&[(0, 2)])), Ok(40));
    assert_eq!(cube.evaluate(&assignment(&[(0, 2097151)])), Ok(9223358842721533951));
    assert_eq!(cube.evaluate(&assignment(&[(0, 2097152)])), Err(EvalError::Overflow));
    assert_eq!(cube.evaluate(&assignment(&[(0, -2097152)])), Ok(i64::MIN));
}

#[test]
fn evaluation_fails_with_each_error() {
    let a = variable(0);
    let b = variable(1);
    let sum = &a + &b;
    assert_eq!(sum.eval(&assignment(&[(1, 2)])), Err(EvalError::MissingVariable(0)));
    assert_eq!(sum.eval(&assignment(&[(0, 2)])), Err(EvalError::MissingVariable(1)));
    assert_eq!(sum.eval(&assignment(&[])), Err(EvalError::MissingVariable(0)));
    assert_eq!(sum.eval(&assignment(&[(0, i64::MAX), (1, 1)])), Err(EvalError::Overflow));
    assert_eq!(sum.eval(&assignment(&[(0, i64::MAX), (1, 0)])), Ok(i64::MAX));
    let quotient = floor(&a, &b);
    assert_eq!(quotient.eval(&assignment(&[(0, 1), (1, 0)])), Err(EvalError::DivisionByZero));
    assert_eq!(quotient.eval(&assignment(&[(0, i64::MIN), (1, -1)])), Err(EvalError::Overflow));
    assert_eq!(quotient.eval(&assignment(&[(1, 0)])), Err(EvalError::MissingVariable(0)));
    assert_eq!(EvalError::MissingVariable(12).message(), "Value not provided for 12.");
    assert_eq!(EvalError::DivisionByZero.message(), "Attempting division by zero.");
    assert_eq!(EvalError::Overflow.message(), "Arithmetic overflow.");
}

#[test]
fn exact_roots_at_the_boundary() {
    assert_eq!(nth_root(i64::MAX, 1), Some(i64::MAX));
    assert_eq!(nth_root(i64::MIN, 1), Some(i64::MIN));
    assert_eq!(nth_root(9223372030926249001, 2), Some(3037000499));
    assert_eq!(nth_root(9223372030926249000, 2), None);
    assert_eq!(nth_root(9223372030926249002, 2), None);
    assert_eq!(nth_root(i64::MAX, 2), None);
    assert_eq!(nth_root(i64::MIN, 63), Some(-2));
    assert_eq!(nth_root(i64::MIN, 3), Some(-2097152));
    assert_eq!(nth_root(i64::MIN, 2), None);
    assert_eq!(nth_root(4611686018427387904, 62), Some(2));
    assert_eq!(nth_root(4611686018427387904, 31), Some(4));
    assert_eq!(nth_root(4052555153018976267, 39), Some(3));
    assert_eq!(nth_root(4052555153018976268, 39), None);
    assert_eq!(nth_root(-8, 3), Some(-2));
    assert_eq!(nth_root(-4, 2), None);
    assert_eq!(nth_root(16, 2), Some(4));
    assert_eq!(nth_root(16, 4), Some(2));
    assert_eq!(nth_root(17, 4), None);
    assert_eq!(nth_root(0, 5), Some(0));
    assert_eq!(nth_root(1, 255), Some(1));
    assert_eq!(nth_root(-1, 255), Some(-1));
    assert_eq!(nth_root(-1, 254), None);
    assert_eq!(nth_root(2, 255), None);
    assert_eq!(nth_root(1, 0), Some(1));
    assert_eq!(nth_root(2, 0), None);
}

#[test]
fn deduction_solves_large_powers_exactly() {
    let a = variable(0);
    let square = &a * &a;
    assert_eq!(
        deduce_values(&vec![(square.clone(), 9223372030926249001)]),
        Ok(assignment(&[(0, 3037000499)]))
    );
    assert_eq!(
        deduce_values(&vec![(square.clone(), 9223372030926249000)]),
        Err(DeductionError::NoIntegerSolution {
            identifier: 0,
            coefficient: 1,
            power: 2,
            constant: 0,
            target: 9223372030926249000,
        })
    );
    let cube = &square * &a;
    assert_eq!(deduce_values(&vec![(2 * &cube + 5, -11)]), Ok(assignment(&[(0, -2)])));
    // The quotient must be exact: 3 * a = 10 has no solution.
    let error = deduce_values(&vec![(3 * &a, 10)]).unwrap_err();
    assert_eq!(error.message(), "Could not find integer solution to 3 * 0^1 + 0 = 10.");
}

#[test]
fn deduction_fails_with_each_error() {
    let a = variable(0);
    let b = variable(1);
    assert_eq!(
        deduce_values(&vec![(Polynomial::constant(3), 4)]),
        Err(DeductionError::Contradiction {
            polynomial: Polynomial::constant(3),
            target: 4,
            value: 3,
        })
    );
    assert_eq!(
        deduce_values(&vec![(&a * &a, 5)]),
        Err(DeductionError::NoIntegerSolution {
            identifier: 0,
            coefficient: 1,
            power: 2,
            constant: 0,
            target: 5,
        })
    );
    assert_eq!(deduce_values(&vec![(&a * &b, 6)]), Err(DeductionError::Undetermined));
    let big = 1i64 << 40;
    assert_eq!(
        deduce_values(&vec![(a.clone(), big), (&(&a * &a) * &b, 1)]),
        Err(DeductionError::Arithmetic(EvalError::Overflow))
    );
    assert_eq!(
        deduce_values(&vec![(a.clone(), 0), (floor(&(&a + 1), &a) + &b, 3)]),
        Err(DeductionError::Arithmetic(EvalError::DivisionByZero))
    );
    assert_eq!(
        DeductionError::Arithmetic(EvalError::DivisionByZero).message(),
        "Attempting division by zero."
    );
    assert_eq!(deduce_values(&vec![]), Ok(HashMap::new()));
}

#[test]
fn zero_coefficients_are_never_stored() {
    let a = variable(0);
    let b = variable(1);
    assert_eq!(Polynomial::constant(0).monomials.len(), 0);
    assert_eq!((0 * &a).monomials.len(), 0);
    assert_eq!((&a * &Polynomial::zero()).monomials.len(), 0);
    assert_eq!((&Polynomial::zero() * &a).monomials.len(), 0);
    assert_eq!((&(&a + &b) - &b), a);
    assert_eq!((&(&a + 3) - 3), a);
    assert_eq!(Polynomial::from_monomial(&Monomial::constant(0)), Polynomial::zero());
    assert_eq!(&Monomial::variable(0) - &Monomial::variable(0), Polynomial::zero());
    assert!(Polynomial::zero().is_constant());
    assert_eq!(Polynomial::default(), Polynomial::zero());
}

#[test]
fn monomials_divide_only_exactly() {
    let a = Monomial::variable(0);
    let b = Monomial::variable(1);
    let six_a2_b = 6 * &(&(&a * &a) * &b);
    assert_eq!(six_a2_b.checked_div(&(2 * &a)), Some(3 * &(&a * &b)));
    assert_eq!(six_a2_b.checked_div(&(3 * &(&a * &a))), Some(2 * &b));
    assert_eq!(six_a2_b.checked_div(&six_a2_b), Some(Monomial::constant(1)));
    assert_eq!(six_a2_b.checked_div(&(4 * &a)), None);
    assert_eq!(six_a2_b.checked_div(&(&b * &b)), None);
    assert_eq!(six_a2_b.checked_div(&Monomial::variable(2)), None);
    assert_eq!(six_a2_b.checked_div(&Monomial::constant(0)), None);
    assert_eq!(six_a2_b.checked_div(&Monomial::constant(-3)), Some(-2 * &(&(&a * &a) * &b)));
    assert_eq!(Monomial::constant(i64::MIN).checked_div(&Monomial::constant(-1)), None);
    assert_eq!(Monomial::constant(-7).checked_div(&Monomial::constant(2)), None);
}

#[test]
fn operations_out_of_range_are_refused() {
    let a = Monomial::variable(0);
    let big = Monomial::constant(i64::MAX);
    assert_eq!(big.checked_mul(&Monomial::constant(2)), None);
    assert_eq!(Monomial::constant(i64::MIN).checked_neg(), None);
    let mut high = a.clone();
    high.powers[0].1 = 200;
    assert_eq!(high.checked_mul(&high), None);
    let mut fits = a.clone();
    fits.powers[0].1 = 55;
    assert_eq!(high.checked_mul(&fits).unwrap().powers[0].1, 255);
    let p = Polynomial::constant(i64::MAX);
    assert_eq!(p.checked_add(&Polynomial::constant(1)), None);
    assert_eq!(p.checked_sub(&Polynomial::constant(-1)), None);
    assert_eq!(p.checked_add(&Polynomial::constant(-1)), Some(Polynomial::constant(i64::MAX - 1)));
    assert_eq!(Polynomial::constant(i64::MIN).checked_neg(), None);
    assert_eq!(p.checked_mul(&Polynomial::constant(2)), None);
    assert_eq!(p.checked_mul_constant(2), None);
    assert_eq!(p.checked_mul_monomial(&Monomial::constant(-1)), Some(Polynomial::constant(-i64::MAX)));
}

#[test]
fn reduction_folds_what_is_known() {
    let a = variable(0);
    let b = variable(1);
    let c = variable(2);
    let p = &a * &b + &c;
    assert_eq!(reduce(&p, &assignment(&[(0, 2)])), Ok(2 * &b + &c));
    assert_eq!(reduce(&p, &assignment(&[])), Ok(p.clone()));
    assert_eq!(reduce(&p, &assignment(&[(0, 2), (1, 3), (2, 4)])), Ok(Polynomial::constant(10)));
    assert_eq!(reduce(&p, &assignment(&[(0, 0)])), Ok(c.clone()));
    let q = max(&a, &Polynomial::constant(3)) * &b;
    assert_eq!(reduce(&q, &assignment(&[(0, 5)])), Ok(5 * &b));
    assert_eq!(reduce(&q, &assignment(&[(0, 1)])), Ok(3 * &b));
    assert_eq!(reduce(&q, &assignment(&[(1, 2)])), Ok(2 * &max(&a, &Polynomial::constant(3))));
    let f = floor(&a, &b);
    let squared = &f * &f;
    assert_eq!(reduce(&squared, &assignment(&[(0, 7), (1, 2)])), Ok(Polynomial::constant(9)));
    assert_eq!(
        reduce(&squared, &assignment(&[(0, 7), (1, 0)])),
        Err(EvalError::DivisionByZero)
    );
    let kept = reduce(&f, &assignment(&[(1, 2)])).unwrap();
    assert_eq!(
        kept.monomials[0].powers,
        vec![(Composite::Floor(Rc::new(a.clone()), Rc::new(Polynomial::constant(2))), 1)]
    );
    let m = &(&Monomial::variable(0) * &Monomial::variable(0)) * &Monomial::variable(1);
    assert_eq!(reduce_monomial(&m, &assignment(&[(0, 3)])), Ok(9 * &Monomial::variable(1)));
    assert_eq!(
        reduce_monomial(&m, &assignment(&[(0, 1 << 40)])),
        Err(EvalError::Overflow)
    );
    let nested = min(&(&a + &b), &c);
    assert_eq!(reduce(&nested, &assignment(&[(0, 1), (1, 2), (2, 9)])), Ok(Polynomial::constant(3)));
}

#[test]
fn text_follows_the_names() {
    let a = variable(0);
    let b = variable(1);
    let p = 5 * &a * &a * &b - 3;
    assert_eq!(p.to_code(&name), "5a^2b - 3");
    assert_eq!(p.to_string(), "50^21 - 3");
    assert_eq!((&a - &b).to_code(&name), "a - b");
    assert_eq!((&a + &b + 1).to_code(&name), "a + b + 1");
    assert_eq!((-&a - 1).to_code(&name), "- a - 1");
    assert_eq!((-12 * &a).to_code(&name), "- 12a");
    assert_eq!(Polynomial::zero().to_code(&name), "0");
    assert_eq!(Polynomial::constant(1).to_code(&name), "1");
    assert_eq!(Polynomial::constant(-1).to_code(&name), "- 1");
    assert_eq!(Polynomial::constant(i64::MIN).to_code(&name), "- 9223372036854775808");
    assert_eq!(Polynomial::constant(1234567890).to_code(&name), "1234567890");
    let f = floor(&(&a * &a), &b);
    assert_eq!(f.to_code(&name), "floor(a^2, b)");
    assert_eq!((2 * &max(&f, &(&b + 1))).to_code(&name), "2max(floor(a^2, b), b + 1)");
    assert_eq!(ceil(&a, &b).to_code(&name), "ceil(a, b)");
    assert_eq!(min(&a, &b).to_code(&name), "min(a, b)");
    assert_eq!(Monomial::constant(0).to_code(&name), "0");
    assert_eq!(Monomial::variable(2).to_code(&name), "c");
    assert_eq!(Composite::Variable(25).to_code(&name), "z");
    assert_eq!(Composite::Variable(25).to_string(), "25");
}

#[test]
fn identifiers_are_collected_through_operands() {
    let a = variable(0);
    let b = variable(1);
    let c = variable(2);
    let p = max(&(&a * &b), &floor(&c, &(&a + 7))) + variable(9);
    let mut found = HashSet::new();
    p.unique_identifiers(&mut found);
    assert_eq!(found, [0u16, 1, 2, 9].into_iter().collect());
    let mut more: HashSet<u16> = [4u16].into_iter().collect();
    b.unique_identifiers(&mut more);
    assert_eq!(more, [1u16, 4].into_iter().collect());
    let mut none = HashSet::new();
    Polynomial::constant(5).unique_identifiers(&mut none);
    assert!(none.is_empty());
    let mut one = HashSet::new();
    Composite::Variable(3).unique_identifiers(&mut one);
    Monomial::variable(3).unique_identifiers(&mut one);
    assert_eq!(one, [3u16].into_iter().collect());
}

#[test]
fn registry_hands_out_fresh_variables() {
    let mut registry = Registry::new();
    assert_eq!(registry.new_variable(), variable(0));
    assert_eq!(registry.new_monomial_variable(), Monomial::variable(1));
    assert_eq!(registry.specific_variable(7), variable(7));
    assert_eq!(registry.specific_monomial_variable(7), Monomial::variable(7));
    assert_eq!(registry.new_variable(), variable(2));
    let p = &variable(0) * &variable(2) + 1;
    assert_eq!(registry.eval(&p, &assignment(&[(0, 3), (2, 4)])), Some(13));
    assert_eq!(registry.eval(&p, &assignment(&[(0, 3)])), None);
    assert_eq!(registry.eval_monomial(&(3 * &Monomial::variable(1)), &assignment(&[(1, 5)])), Some(15));
    assert_eq!(registry.eval_monomial(&Monomial::variable(1), &assignment(&[])), None);
    registry.reset();
    assert_eq!(registry.new_variable(), variable(0));
    assert_eq!(Registry::default().new_variable(), variable(0));
}

#[test]
fn constants_compare_by_value() {
    let a = variable(0);
    assert!(Polynomial::constant(-5) < 0 && 0 > Polynomial::constant(-5));
    assert!(Polynomial::constant(5) > 0 && 0 < Polynomial::constant(5));
    assert!(Polynomial::zero() == 0 && 0 == Polynomial::zero());
    assert!(Polynomial::zero() < 1 && Polynomial::zero() > -1);
    assert!(a > i64::MAX && i64::MAX < a);
    assert!(a != 0);
    assert!(Monomial::constant(4) == 4 && 4 == Monomial::constant(4));
    assert!(Monomial::constant(4) < 5 && 5 > Monomial::constant(4));
    assert!(Monomial::variable(0) > 5);
    assert_eq!(Polynomial::from(7), Polynomial::constant(7));
    assert_eq!(Polynomial::from(Monomial::variable(1)), variable(1));
    assert_eq!(Polynomial::from(&Monomial::from(0)), Polynomial::zero());
}
