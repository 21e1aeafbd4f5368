use symbolic_polynomials::Monomial;

#[test]
fn monomials_up_to_coefficient_test() {
    let a = Monomial::variable(0);
    let b = Monomial::variable(1);
    let c = Monomial::from(5);
    // a != b
    assert!(!a.up_to_coefficient(&b));
    // a != 3
    assert!(!a.up_to_coefficient(&Monomial::from(3)));
    // a != c
    assert!(!a.up_to_coefficient(&c));
    // c == 3
    assert!(c.up_to_coefficient(&Monomial::from(3)));
    let a2 = 2 * &a;
    let a5 = -5 * &a;
    // a == 2a
    assert!(a.up_to_coefficient(&a2));
    // a == -5a
    assert!(a.up_to_coefficient(&a5));
    // 2a == -5a
    assert!(a2.up_to_coefficient(&a5));
    // 2a != c
    assert!(!a2.up_to_coefficient(&c));
    // 2a != 3
    assert!(!a2.up_to_coefficient(&Monomial::from(3)));
    let a_sq = &a * &a;
    let a_sq_3 = 3 * &a_sq;
    // a^2 != a
    assert!(!a_sq.up_to_coefficient(&a));
    // a^2 != 2a
    assert!(!a_sq.up_to_coefficient(&a2));
    // a^2 != -5a
    assert!(!a_sq.up_to_coefficient(&a5));
    // a^2 == 3a^2
    assert!(a_sq.up_to_coefficient(&a_sq_3));
}



#[test]
fn monomials_partial_eq_test() {
    // a^2 == a^2
    let a_v1 = Monomial::variable(1);
    let a_sq_v1 = &a_v1 * &a_v1;
    let a_v2 = Monomial::variable(1);
    let a_sq_v2 = &a_v2 * &a_v2;
    assert!(a_sq_v1 == a_sq_v2);
    // 2*a^2 != a^2
    let a = Monomial::variable(1);
    let a_sq = &a * &a;
    let a_sq2 = 2 * &(&a * &a);
    assert!(a_sq != a_sq2);
    // a^2 != b^2
    let a = Monomial::variable(1);
    let a_sq = &a * &a;
    let b = Monomial::variable(2);
    let b_sq = &b * &b;
    assert!(a_sq != b_sq);
}
