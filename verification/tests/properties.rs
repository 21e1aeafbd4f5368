use std::collections::HashMap;
use std::rc::Rc;
use symbolic_polynomials::{
    can_round_quotient, ceil, constants_have_quotient, deduce_values, floor, max, min, reduce,
    variable, Comparison, Composite, EvalError, Monomial, Polynomial,
};

fn samples() -> Vec<Polynomial> {
    let a = variable(0);
    let b = variable(1);
    let c = variable(2);
    vec![
        Polynomial::zero(),
        Polynomial::constant(7),
        Polynomial::constant(-3),
        a.clone(),
        &a + &b,
        &a * &a - &b * 2 + 1,
        &(&a + &b) * &(&a - &b),
        floor(&(&a * &b), &c) + 4,
        max(&a, &b) * &c - min(&(&a + 1), &c),
        ceil(&c, &(&a + 2)) * &a,
    ]
}

fn is_canonical(p: &Polynomial) -> bool {
    p.monomials.iter().all(|m| m.coefficient != 0)
        && p.monomials.windows(2).all(|w| {
            !w[0].up_to_coefficient(&w[1]) && w[0].compare(&w[1]) == Comparison::Greater
        })
        && p.monomials.iter().all(|m| {
            m.powers.iter().all(|f| f.1 > 0)
                && m.powers.windows(2).all(|w| w[0].0.compare(&w[1].0) == Comparison::Greater)
        })
}

#[test]
fn results_are_canonical_and_stable() {
    for p in samples() {
        assert!(is_canonical(&p));
        assert_eq!(&p + 0, p);
        assert_eq!(&p + &Polynomial::zero(), p);
        assert_eq!(&Polynomial::zero() + &p, p);
        assert_eq!(&p * 1, p);
        let mut again = Polynomial::zero();
        for m in &p.monomials {
            again = &again + m;
        }
        assert_eq!(again, p);
        for q in samples() {
            assert!(is_canonical(&(&p + &q)));
            assert!(is_canonical(&(&p - &q)));
            assert!(is_canonical(&(&p * &q)));
        }
    }
}

fn composites() -> Vec<Composite> {
    let a = Rc::new(variable(0));
    let b = Rc::new(variable(1));
    let two = Rc::new(Polynomial::constant(2));
    vec![
        Composite::Variable(0),
        Composite::Variable(1),
        Composite::Variable(7),
        Composite::Max(a.clone(), b.clone()),
        Composite::Max(b.clone(), a.clone()),
        Composite::Min(a.clone(), b.clone()),
        Composite::Min(a.clone(), two.clone()),
        Composite::Ceil(a.clone(), b.clone()),
        Composite::Ceil(a.clone(), two.clone()),
        Composite::Floor(a.clone(), b.clone()),
        Composite::Floor(b.clone(), two.clone()),
    ]
}

#[test]
fn order_of_composites_is_total() {
    let all = composites();
    for x in &all {
        for y in &all {
            let xy = x.compare(y);
            let yx = y.compare(x);
            assert_eq!(xy == Comparison::Equal, x == y);
            assert_eq!(xy == Comparison::Less, yx == Comparison::Greater);
            assert_eq!(xy == Comparison::Greater, yx == Comparison::Less);
            for z in &all {
                if xy == Comparison::Less && y.compare(z) == Comparison::Less {
                    assert_eq!(x.compare(z), Comparison::Less);
                }
            }
        }
    }
}

#[test]
fn ceil_stands_above_floor_both_ways() {
    let a = Rc::new(variable(0));
    let b = Rc::new(variable(1));
    let ceil = Composite::Ceil(a.clone(), b.clone());
    let floor = Composite::Floor(a.clone(), b.clone());
    assert_eq!(ceil.compare(&floor), Comparison::Greater);
    assert_eq!(floor.compare(&ceil), Comparison::Less);
    let other_floor = Composite::Floor(b.clone(), a.clone());
    assert_eq!(ceil.compare(&other_floor), Comparison::Greater);
    assert_eq!(other_floor.compare(&ceil), Comparison::Less);
}

#[test]
fn kinds_rank_from_variable_down_to_floor() {
    let a = Rc::new(variable(0));
    let b = Rc::new(variable(1));
    let ranked = vec![
        Composite::Variable(9),
        Composite::Max(a.clone(), b.clone()),
        Composite::Min(a.clone(), b.clone()),
        Composite::Ceil(a.clone(), b.clone()),
        Composite::Floor(a.clone(), b.clone()),
    ];
    for i in 0..ranked.len() {
        for j in (i + 1)..ranked.len() {
            assert_eq!(ranked[i].compare(&ranked[j]), Comparison::Greater);
            assert_eq!(ranked[j].compare(&ranked[i]), Comparison::Less);
        }
    }
    // A variable with a smaller identifier stands above one with a greater.
    assert_eq!(Composite::Variable(0).compare(&Composite::Variable(1)), Comparison::Greater);
}

#[test]
fn arithmetic_laws_hold() {
    let all = samples();
    for p in &all {
        assert_eq!((p - p).monomials.len(), 0);
        assert_eq!(p - p, Polynomial::zero());
        for q in &all {
            assert_eq!(p + q, q + p);
            assert_eq!(p * q, q * p);
            for r in &all {
                assert_eq!(&(p + q) + r, p + &(q + r));
                assert_eq!(p * &(q + r), &(p * q) + &(p * r));
                assert_eq!(&(p + q) * r, &(p * r) + &(q * r));
            }
        }
    }
}

#[test]
fn exact_division_round_trips() {
    let all = samples();
    for p in &all {
        for q in &all {
            if q.monomials.is_empty() {
                continue;
            }
            let product = p * q;
            assert_eq!(product.checked_div(q), Some(p.clone()));
            let (quotient, remainder) = product.div_rem(q);
            assert_eq!(quotient, *p);
            assert_eq!(remainder, Polynomial::zero());
            if let Some(r) = p.checked_div(q) {
                assert_eq!(&r * q, *p);
                assert_eq!(p.div_rem(q), (r, Polynomial::zero()));
            }
            let (quotient, remainder) = p.div_rem(q);
            assert_eq!(&(&quotient * q) + &remainder, *p);
        }
    }
}

#[test]
fn division_by_zero_polynomial_leaves_the_dividend() {
    let a = variable(0);
    let zero = Polynomial::zero();
    assert_eq!(a.div_rem(&zero), (Polynomial::zero(), a.clone()));
    assert_eq!(a.checked_div(&zero), None);
}

#[test]
fn constants_evaluate_to_themselves() {
    let empty: HashMap<u16, i64> = HashMap::new();
    let mut some = HashMap::new();
    some.insert(0u16, 11i64);
    for c in [0i64, 1, -1, 13, -6, i64::MAX, i64::MIN] {
        let p = Polynomial::constant(c);
        assert!(p.is_constant());
        assert_eq!(p.eval(&empty), Ok(c));
        assert_eq!(p.eval(&some), Ok(c));
        assert_eq!(Monomial::constant(c).evaluate(&empty), Ok(c));
    }
    assert_eq!(Polynomial::zero().eval(&empty), Ok(0));
}

#[test]
fn arithmetic_and_reduction_keep_the_value() {
    let all = samples();
    let full: HashMap<u16, i64> = [(0u16, 7i64), (1, -3), (2, 4)].into_iter().collect();
    let partial: HashMap<u16, i64> = [(1u16, -3i64)].into_iter().collect();
    for p in &all {
        let x = p.eval(&full).unwrap();
        let reduced = reduce(p, &partial).unwrap();
        assert_eq!(reduced.eval(&full), Ok(x));
        assert_eq!(reduce(p, &full), Ok(Polynomial::constant(x)));
        for q in &all {
            let y = q.eval(&full).unwrap();
            assert_eq!((p + q).eval(&full), Ok(x + y));
            assert_eq!((p - q).eval(&full), Ok(x - y));
            assert_eq!((p * q).eval(&full), Ok(x * y));
            if !q.monomials.is_empty() {
                let (quotient, remainder) = p.div_rem(q);
                let whole = quotient.eval(&full).unwrap() * y + remainder.eval(&full).unwrap();
                assert_eq!(whole, x);
            }
        }
    }
}

#[test]
fn deduced_values_satisfy_the_equations() {
    let a = variable(0);
    let b = variable(1);
    let c = variable(2);
    let system = vec![
        (3 * &b * &b, 27),
        (&a * &a * &a + floor(&(&b * &b * &b), &Polynomial::constant(4)) - 10, 4),
        (min(&(&a * &b), &Polynomial::constant(4)) * &c + &c * &a, 60),
    ];
    let found = deduce_values(&system).unwrap();
    for (p, target) in &system {
        assert_eq!(p.eval(&found), Ok(*target));
    }
    let expected: HashMap<u16, i64> = [(0u16, 2i64), (1, 3), (2, 10)].into_iter().collect();
    assert_eq!(found, expected);
}

#[test]
fn composites_compare_with_the_operators() {
    let all = composites();
    for x in &all {
        for y in &all {
            assert_eq!(x < y, x.compare(y) == Comparison::Less);
            assert_eq!(x > y, x.compare(y) == Comparison::Greater);
            assert_eq!(x == y, x.compare(y) == Comparison::Equal);
        }
    }
}

#[test]
fn terms_added_in_any_order_give_the_polynomial() {
    for p in samples() {
        let n = p.monomials.len();
        let mut orders: Vec<Vec<usize>> = vec![(0..n).collect(), (0..n).rev().collect()];
        for shift in 1..n {
            orders.push((0..n).map(|k| (k + shift) % n).collect());
            orders.push((0..n).map(|k| (k * shift + 1) % n).filter(|_| n % shift != 0).collect());
        }
        for order in orders {
            let mut seen = order.clone();
            seen.sort();
            if seen != (0..n).collect::<Vec<usize>>() {
                continue;
            }
            let mut acc = Polynomial::zero();
            for k in order {
                acc = &acc + &p.monomials[k];
            }
            assert_eq!(acc.monomials, p.monomials);
        }
    }
}

#[test]
fn canonical_form_is_tested() {
    for p in samples() {
        assert!(p.is_canonical());
        for m in &p.monomials {
            assert!(m.is_canonical());
            for f in &m.powers {
                assert!(f.0.is_canonical());
            }
        }
    }
    let a = Monomial::variable(0);
    let b = Monomial::variable(1);
    let ab = &a * &b;
    // Terms out of order, a repeated shape, a zero coefficient.
    assert!(!Polynomial { monomials: vec![b.clone(), a.clone()] }.is_canonical());
    assert!(Polynomial { monomials: vec![a.clone(), b.clone()] }.is_canonical());
    assert!(!Polynomial { monomials: vec![a.clone(), 2 * &a] }.is_canonical());
    assert!(!Polynomial { monomials: vec![a.clone(), Monomial::constant(0)] }.is_canonical());
    assert!(!Polynomial { monomials: vec![0 * &a] }.is_canonical());
    assert!(Polynomial { monomials: vec![ab.clone(), a.clone(), b.clone(), Monomial::constant(-4)] }
        .is_canonical());
    assert!(!Polynomial { monomials: vec![a.clone(), ab.clone()] }.is_canonical());
    // Factors out of order, a repeated composite, a power of zero.
    let swapped = Monomial {
        coefficient: 1,
        powers: vec![(Composite::Variable(1), 1), (Composite::Variable(0), 1)],
    };
    assert!(!swapped.is_canonical());
    assert!(ab.is_canonical());
    let twice = Monomial {
        coefficient: 1,
        powers: vec![(Composite::Variable(0), 1), (Composite::Variable(0), 2)],
    };
    assert!(!twice.is_canonical());
    let none = Monomial { coefficient: 3, powers: vec![(Composite::Variable(0), 0)] };
    assert!(!none.is_canonical());
    assert!(Monomial::constant(0).is_canonical());
    // A composite is canonical where its operands are.
    let bad = Rc::new(Polynomial { monomials: vec![b.clone(), a.clone()] });
    let good = Rc::new(variable(0));
    assert!(!Composite::Floor(good.clone(), bad.clone()).is_canonical());
    assert!(!Composite::Max(bad.clone(), good.clone()).is_canonical());
    assert!(Composite::Min(good.clone(), good.clone()).is_canonical());
    let nested = Monomial { coefficient: 1, powers: vec![(Composite::Ceil(good, bad), 1)] };
    assert!(!nested.is_canonical());
    assert!(!Polynomial { monomials: vec![nested] }.is_canonical());
}

#[test]
fn rounding_is_tested_before_it_is_taken() {
    let a = variable(0);
    let zero = Polynomial::zero();
    let three = Polynomial::constant(3);
    let least = Polynomial::constant(i64::MIN);
    let minus_one = Polynomial::constant(-1);
    assert!(constants_have_quotient(&three, &three));
    assert!(!constants_have_quotient(&three, &zero));
    assert!(!constants_have_quotient(&least, &minus_one));
    assert!(constants_have_quotient(&least, &three));
    assert!(constants_have_quotient(&minus_one, &least));
    assert!(can_round_quotient(&three, &three));
    assert!(!can_round_quotient(&three, &zero));
    assert!(!can_round_quotient(&least, &minus_one));
    assert!(can_round_quotient(&a, &zero));
    assert!(can_round_quotient(&a, &three));
    assert!(can_round_quotient(&three, &a));
    let unsorted = Polynomial {
        monomials: vec![Monomial::variable(1), Monomial::variable(0)],
    };
    assert!(!can_round_quotient(&unsorted, &three));
    assert!(!can_round_quotient(&three, &unsorted));
    assert_eq!(floor(&a, &zero), Polynomial::from_monomial(&Monomial {
        coefficient: 1,
        powers: vec![(Composite::Floor(Rc::new(a.clone()), Rc::new(zero.clone())), 1)],
    }));
}

#[test]
fn deduced_values_need_not_name_a_variable_that_cancels() {
    let a = variable(0);
    let b = variable(1);
    let system = vec![(a.clone(), 5), (&a * &b - 5 * &b, 0)];
    let found = deduce_values(&system).unwrap();
    let expected: HashMap<u16, i64> = [(0u16, 5i64)].into_iter().collect();
    assert_eq!(found, expected);
    assert_eq!(system[1].0.eval(&found), Err(EvalError::MissingVariable(1)));
    for value in [-3i64, 0, 8] {
        let mut all = found.clone();
        all.insert(1, value);
        assert_eq!(system[0].0.eval(&all), Ok(5));
        assert_eq!(system[1].0.eval(&all), Ok(0));
    }
}
