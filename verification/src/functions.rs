//! Constructors of polynomials: variables, and the operations `max`, `min`,
//! `ceil` and `floor`, which fold constants and exact quotients away.
use vstd::prelude::*;
use std::rc::Rc;
use crate::algebra::constant_polynomial;
use crate::division::polynomial_quotient;
use crate::composite::Composite;
use crate::integer::{ceil_div, ceil_quotient, div_floor, floor_quotient};
use crate::model::{
    composite_wf, polynomial_wf, CompositeModel, Identifier, MonomialModel, PolynomialModel,
};
use crate::monomial::Monomial;
use crate::polynomial::{constant_value, polynomial_is_constant, Polynomial};

verus! {

/// The polynomial whose single term is the composite `c` to the power one.
pub open spec fn composite_polynomial(c: CompositeModel) -> PolynomialModel {
    PolynomialModel {
        monomials: seq![MonomialModel { coefficient: 1, powers: seq![(c, 1nat)] }],
    }
}

/// The polynomial whose single term is the given composite to the power
/// one.
pub fn from_composite(c: Composite) -> (r: Polynomial)
    ensures
        r@ == composite_polynomial(c@),
        composite_wf(c@) ==> polynomial_wf(r@),
{
    let ghost model = c@;
    let mut powers: Vec<(Composite, u8)> = Vec::new();
    powers.push((c, 1));
    let m = Monomial { coefficient: 1, powers };
    assert(m@.powers =~= seq![(model, 1nat)]);
    let mut monomials: Vec<Monomial> = Vec::new();
    monomials.push(m);
    let r = Polynomial { monomials };
    assert(r@.monomials =~= composite_polynomial(model).monomials);
    r
}

/// The polynomial that is the variable `id`.
pub fn variable(id: Identifier) -> (r: Polynomial)
    ensures
        r@ == composite_polynomial(CompositeModel::Variable(id)),
        polynomial_wf(r@),
{
    from_composite(Composite::Variable(id))
}

/// The polynomial that is the variable `id`.
pub fn primitive(id: Identifier) -> (r: Polynomial)
    ensures
        r@ == composite_polynomial(CompositeModel::Variable(id)),
        polynomial_wf(r@),
{
    variable(id)
}

/// The greater of two integers.
pub open spec fn max_int(x: int, y: int) -> int {
    if x > y {
        x
    } else {
        y
    }
}

/// The smaller of two integers.
pub open spec fn min_int(x: int, y: int) -> int {
    if x < y {
        x
    } else {
        y
    }
}

/// The maximum of two polynomials: a constant where both are constants,
/// else the composite `max` of the two.
pub open spec fn max_polynomial(l: PolynomialModel, r: PolynomialModel) -> PolynomialModel {
    if polynomial_is_constant(l) && polynomial_is_constant(r) {
        constant_polynomial(max_int(constant_value(l), constant_value(r)))
    } else {
        composite_polynomial(CompositeModel::Max(l, r))
    }
}

/// The minimum of two polynomials: a constant where both are constants,
/// else the composite `min` of the two.
pub open spec fn min_polynomial(l: PolynomialModel, r: PolynomialModel) -> PolynomialModel {
    if polynomial_is_constant(l) && polynomial_is_constant(r) {
        constant_polynomial(min_int(constant_value(l), constant_value(r)))
    } else {
        composite_polynomial(CompositeModel::Min(l, r))
    }
}

/// The floor of the quotient of two polynomials: a constant where both are
/// constants, the quotient where the long division is exact, else the
/// composite `floor` of the two.
pub open spec fn floor_polynomial(l: PolynomialModel, r: PolynomialModel) -> PolynomialModel {
    if polynomial_is_constant(l) && polynomial_is_constant(r) {
        constant_polynomial(floor_quotient(constant_value(l), constant_value(r)))
    } else {
        match polynomial_quotient(l, r) {
            Some(q) => q,
            None => composite_polynomial(CompositeModel::Floor(l, r)),
        }
    }
}

/// The ceiling of the quotient of two polynomials: a constant where both
/// are constants, the quotient where the long division is exact, else the
/// composite `ceil` of the two.
pub open spec fn ceil_polynomial(l: PolynomialModel, r: PolynomialModel) -> PolynomialModel {
    if polynomial_is_constant(l) && polynomial_is_constant(r) {
        constant_polynomial(ceil_quotient(constant_value(l), constant_value(r)))
    } else {
        match polynomial_quotient(l, r) {
            Some(q) => q,
            None => composite_polynomial(CompositeModel::Ceil(l, r)),
        }
    }
}

/// Whether a quotient of two constants can be folded: the divisor is not
/// zero and the quotient is in range.
pub open spec fn constants_divide(l: PolynomialModel, r: PolynomialModel) -> bool {
    constant_value(r) != 0 && !(constant_value(l) == i64::MIN && constant_value(r) == -1)
}

/// Whether the floor and the ceiling of the quotient of two polynomials can
/// be taken: both are canonical, and where both are constants they have a
/// quotient.
pub open spec fn rounding_is_defined(l: PolynomialModel, r: PolynomialModel) -> bool {
    &&& polynomial_wf(l)
    &&& polynomial_wf(r)
    &&& polynomial_is_constant(l) && polynomial_is_constant(r) ==> constants_divide(l, r)
}

/// Whether the quotient of the constants of two polynomials can be folded:
/// the divisor is not zero and the quotient is in range.
pub fn constants_have_quotient(left: &Polynomial, right: &Polynomial) -> (r: bool)
    ensures
        r == constants_divide(left@, right@),
{
    let divisor = right.constant_value();
    divisor != 0 && !(left.constant_value() == i64::MIN && divisor == -1)
}

/// Whether `floor` and `ceil` can be taken of two polynomials: both are
/// canonical, and where both are constants the divisor is not zero and the
/// quotient is in range.
pub fn can_round_quotient(left: &Polynomial, right: &Polynomial) -> (r: bool)
    ensures
        r == rounding_is_defined(left@, right@),
{
    if !left.is_canonical() || !right.is_canonical() {
        false
    } else if left.is_constant() && right.is_constant() {
        constants_have_quotient(left, right)
    } else {
        true
    }
}

/// The symbolic maximum of two polynomials. Two constants fold to the
/// greater one.
pub fn max(left: &Polynomial, right: &Polynomial) -> (r: Polynomial)
    ensures
        r@ == max_polynomial(left@, right@),
        polynomial_wf(left@) && polynomial_wf(right@) ==> polynomial_wf(r@),
{
    if left.is_constant() && right.is_constant() {
        let x = left.constant_value();
        let y = right.constant_value();
        Polynomial::constant(
            if x > y {
                x
            } else {
                y
            },
        )
    } else {
        from_composite(Composite::Max(Rc::new(left.clone()), Rc::new(right.clone())))
    }
}

/// The symbolic minimum of two polynomials. Two constants fold to the
/// smaller one.
pub fn min(left: &Polynomial, right: &Polynomial) -> (r: Polynomial)
    ensures
        r@ == min_polynomial(left@, right@),
        polynomial_wf(left@) && polynomial_wf(right@) ==> polynomial_wf(r@),
{
    if left.is_constant() && right.is_constant() {
        let x = left.constant_value();
        let y = right.constant_value();
        Polynomial::constant(
            if x < y {
                x
            } else {
                y
            },
        )
    } else {
        from_composite(Composite::Min(Rc::new(left.clone()), Rc::new(right.clone())))
    }
}

/// The symbolic floor of the quotient of two polynomials. Two constants
/// fold to the quotient rounded toward negative infinity; an exact quotient
/// of polynomials is returned as it is. The polynomials must be canonical,
/// and two constants must have a quotient: the divisor is not zero and the
/// quotient is in range; `can_round_quotient` tests this.
pub fn floor(left: &Polynomial, right: &Polynomial) -> (r: Polynomial)
    requires
        rounding_is_defined(left@, right@),
    ensures
        r@ == floor_polynomial(left@, right@),
        polynomial_wf(r@),
{
    if left.is_constant() && right.is_constant() {
        Polynomial::constant(div_floor(left.constant_value(), right.constant_value()))
    } else {
        match left.checked_div(right) {
            Some(q) => q,
            None => from_composite(
                Composite::Floor(Rc::new(left.clone()), Rc::new(right.clone())),
            ),
        }
    }
}

/// The symbolic ceiling of the quotient of two polynomials. Two constants
/// fold to the quotient rounded toward positive infinity; an exact quotient
/// of polynomials is returned as it is. The polynomials must be canonical,
/// and two constants must have a quotient: the divisor is not zero and the
/// quotient is in range; `can_round_quotient` tests this.
pub fn ceil(left: &Polynomial, right: &Polynomial) -> (r: Polynomial)
    requires
        rounding_is_defined(left@, right@),
    ensures
        r@ == ceil_polynomial(left@, right@),
        polynomial_wf(r@),
{
    if left.is_constant() && right.is_constant() {
        Polynomial::constant(ceil_div(left.constant_value(), right.constant_value()))
    } else {
        match left.checked_div(right) {
            Some(q) => q,
            None => from_composite(Composite::Ceil(Rc::new(left.clone()), Rc::new(right.clone()))),
        }
    }
}

} // verus!
