//! The operators `+`, `-`, `*`, `/` and unary `-` on polynomials, monomials
//! and constants. Each stands for the checked operation of the same name
//! and asks of its operands that the result exists.
use vstd::prelude::*;
use vstd::pervasive::unreached;
use vstd::std_specs::ops::{AddSpecImpl, DivSpecImpl, MulSpecImpl, NegSpecImpl, SubSpecImpl};
use std::ops::{Add, Div, Mul, Neg, Sub};
use crate::algebra::{
    constant_monomial, constant_polynomial, monomial_polynomial, polynomial_difference,
    polynomial_negation, polynomial_product, polynomial_sum,
    polynomial_times_monomial, product_fits, terms_fit, times_monomial_fits,
};
use crate::division::polynomial_quotient;
use crate::integer::fits_i64;
use crate::model::{monomial_wf, polynomial_wf};
use crate::monomial::{
    monomial_fits, monomial_negation, monomial_product, monomial_quotient, Monomial,
};
use crate::polynomial::Polynomial;

verus! {

impl Add<&Polynomial> for &Polynomial {
    type Output = Polynomial;

    /// The sum of two polynomials, as a polynomial. Its coefficients
    /// must be in range.
    fn add(self, rhs: &Polynomial) -> (r: Polynomial)
        ensures
            r@ == polynomial_sum(self@, rhs@),
    {
        match self.checked_add(rhs) {
            Some(r) => r,
            None => unreached(),
        }
    }
}

impl AddSpecImpl<&Polynomial> for &Polynomial {
    open spec fn obeys_add_spec() -> bool {
        false
    }

    open spec fn add_req(self, rhs: &Polynomial) -> bool {
        terms_fit(polynomial_sum(self@, rhs@).monomials)
    }

    open spec fn add_spec(self, rhs: &Polynomial) -> Polynomial {
        arbitrary()
    }
}

impl Add<&Polynomial> for Polynomial {
    type Output = Polynomial;

    /// The sum of two polynomials, as a polynomial. Its coefficients
    /// must be in range.
    fn add(self, rhs: &Polynomial) -> (r: Polynomial)
        ensures
            r@ == polynomial_sum(self@, rhs@),
    {
        match self.checked_add(rhs) {
            Some(r) => r,
            None => unreached(),
        }
    }
}

impl AddSpecImpl<&Polynomial> for Polynomial {
    open spec fn obeys_add_spec() -> bool {
        false
    }

    open spec fn add_req(self, rhs: &Polynomial) -> bool {
        terms_fit(polynomial_sum(self@, rhs@).monomials)
    }

    open spec fn add_spec(self, rhs: &Polynomial) -> Polynomial {
        arbitrary()
    }
}

impl Add<Polynomial> for &Polynomial {
    type Output = Polynomial;

    /// The sum of two polynomials, as a polynomial. Its coefficients
    /// must be in range.
    fn add(self, rhs: Polynomial) -> (r: Polynomial)
        ensures
            r@ == polynomial_sum(self@, rhs@),
    {
        match self.checked_add(&rhs) {
            Some(r) => r,
            None => unreached(),
        }
    }
}

impl AddSpecImpl<Polynomial> for &Polynomial {
    open spec fn obeys_add_spec() -> bool {
        false
    }

    open spec fn add_req(self, rhs: Polynomial) -> bool {
        terms_fit(polynomial_sum(self@, rhs@).monomials)
    }

    open spec fn add_spec(self, rhs: Polynomial) -> Polynomial {
        arbitrary()
    }
}

impl Add<Polynomial> for Polynomial {
    type Output = Polynomial;

    /// The sum of two polynomials, as a polynomial. Its coefficients
    /// must be in range.
    fn add(self, rhs: Polynomial) -> (r: Polynomial)
        ensures
            r@ == polynomial_sum(self@, rhs@),
    {
        match self.checked_add(&rhs) {
            Some(r) => r,
            None => unreached(),
        }
    }
}

impl AddSpecImpl<Polynomial> for Polynomial {
    open spec fn obeys_add_spec() -> bool {
        false
    }

    open spec fn add_req(self, rhs: Polynomial) -> bool {
        terms_fit(polynomial_sum(self@, rhs@).monomials)
    }

    open spec fn add_spec(self, rhs: Polynomial) -> Polynomial {
        arbitrary()
    }
}

impl Add<i64> for &Polynomial {
    type Output = Polynomial;

    /// The sum of a polynomial and a constant, as a polynomial. Its coefficients
    /// must be in range.
    fn add(self, rhs: i64) -> (r: Polynomial)
        ensures
            r@ == polynomial_sum(self@, constant_polynomial(rhs as int)),
    {
        let rhs_polynomial = Polynomial::constant(rhs);
        match self.checked_add(&rhs_polynomial) {
            Some(r) => r,
            None => unreached(),
        }
    }
}

impl AddSpecImpl<i64> for &Polynomial {
    open spec fn obeys_add_spec() -> bool {
        false
    }

    open spec fn add_req(self, rhs: i64) -> bool {
        terms_fit(polynomial_sum(self@, constant_polynomial(rhs as int)).monomials)
    }

    open spec fn add_spec(self, rhs: i64) -> Polynomial {
        arbitrary()
    }
}

impl Add<i64> for Polynomial {
    type Output = Polynomial;

    /// The sum of a polynomial and a constant, as a polynomial. Its coefficients
    /// must be in range.
    fn add(self, rhs: i64) -> (r: Polynomial)
        ensures
            r@ == polynomial_sum(self@, constant_polynomial(rhs as int)),
    {
        let rhs_polynomial = Polynomial::constant(rhs);
        match self.checked_add(&rhs_polynomial) {
            Some(r) => r,
            None => unreached(),
        }
    }
}

impl AddSpecImpl<i64> for Polynomial {
    open spec fn obeys_add_spec() -> bool {
        false
    }

    open spec fn add_req(self, rhs: i64) -> bool {
        terms_fit(polynomial_sum(self@, constant_polynomial(rhs as int)).monomials)
    }

    open spec fn add_spec(self, rhs: i64) -> Polynomial {
        arbitrary()
    }
}

impl Add<&Polynomial> for i64 {
    type Output = Polynomial;

    /// The sum of a constant and a polynomial, as a polynomial. Its coefficients
    /// must be in range.
    fn add(self, rhs: &Polynomial) -> (r: Polynomial)
        ensures
            r@ == polynomial_sum(constant_polynomial(self as int), rhs@),
    {
        let self_polynomial = Polynomial::constant(self);
        match self_polynomial.checked_add(rhs) {
            Some(r) => r,
            None => unreached(),
        }
    }
}

impl AddSpecImpl<&Polynomial> for i64 {
    open spec fn obeys_add_spec() -> bool {
        false
    }

    open spec fn add_req(self, rhs: &Polynomial) -> bool {
        terms_fit(polynomial_sum(constant_polynomial(self as int), rhs@).monomials)
    }

    open spec fn add_spec(self, rhs: &Polynomial) -> Polynomial {
        arbitrary()
    }
}

impl Add<Polynomial> for i64 {
    type Output = Polynomial;

    /// The sum of a constant and a polynomial, as a polynomial. Its coefficients
    /// must be in range.
    fn add(self, rhs: Polynomial) -> (r: Polynomial)
        ensures
            r@ == polynomial_sum(constant_polynomial(self as int), rhs@),
    {
        let self_polynomial = Polynomial::constant(self);
        match self_polynomial.checked_add(&rhs) {
            Some(r) => r,
            None => unreached(),
        }
    }
}

impl AddSpecImpl<Polynomial> for i64 {
    open spec fn obeys_add_spec() -> bool {
        false
    }

    open spec fn add_req(self, rhs: Polynomial) -> bool {
        terms_fit(polynomial_sum(constant_polynomial(self as int), rhs@).monomials)
    }

    open spec fn add_spec(self, rhs: Polynomial) -> Polynomial {
        arbitrary()
    }
}

impl Add<&Monomial> for &Polynomial {
    type Output = Polynomial;

    /// The sum of a polynomial and a monomial, as a polynomial. Its coefficients
    /// must be in range.
    fn add(self, rhs: &Monomial) -> (r: Polynomial)
        ensures
            r@ == polynomial_sum(self@, monomial_polynomial(rhs@)),
    {
        let rhs_polynomial = Polynomial::from_monomial(rhs);
        match self.checked_add(&rhs_polynomial) {
            Some(r) => r,
            None => unreached(),
        }
    }
}

impl AddSpecImpl<&Monomial> for &Polynomial {
    open spec fn obeys_add_spec() -> bool {
        false
    }

    open spec fn add_req(self, rhs: &Monomial) -> bool {
        terms_fit(polynomial_sum(self@, monomial_polynomial(rhs@)).monomials)
    }

    open spec fn add_spec(self, rhs: &Monomial) -> Polynomial {
        arbitrary()
    }
}

impl Add<&Monomial> for Polynomial {
    type Output = Polynomial;

    /// The sum of a polynomial and a monomial, as a polynomial. Its coefficients
    /// must be in range.
    fn add(self, rhs: &Monomial) -> (r: Polynomial)
        ensures
            r@ == polynomial_sum(self@, monomial_polynomial(rhs@)),
    {
        let rhs_polynomial = Polynomial::from_monomial(rhs);
        match self.checked_add(&rhs_polynomial) {
            Some(r) => r,
            None => unreached(),
        }
    }
}

impl AddSpecImpl<&Monomial> for Polynomial {
    open spec fn obeys_add_spec() -> bool {
        false
    }

    open spec fn add_req(self, rhs: &Monomial) -> bool {
        terms_fit(polynomial_sum(self@, monomial_polynomial(rhs@)).monomials)
    }

    open spec fn add_spec(self, rhs: &Monomial) -> Polynomial {
        arbitrary()
    }
}

impl Add<&Polynomial> for &Monomial {
    type Output = Polynomial;

    /// The sum of a monomial and a polynomial, as a polynomial. Its coefficients
    /// must be in range.
    fn add(self, rhs: &Polynomial) -> (r: Polynomial)
        ensures
            r@ == polynomial_sum(monomial_polynomial(self@), rhs@),
    {
        let self_polynomial = Polynomial::from_monomial(self);
        match self_polynomial.checked_add(rhs) {
            Some(r) => r,
            None => unreached(),
        }
    }
}

impl AddSpecImpl<&Polynomial> for &Monomial {
    open spec fn obeys_add_spec() -> bool {
        false
    }

    open spec fn add_req(self, rhs: &Polynomial) -> bool {
        terms_fit(polynomial_sum(monomial_polynomial(self@), rhs@).monomials)
    }

    open spec fn add_spec(self, rhs: &Polynomial) -> Polynomial {
        arbitrary()
    }
}

impl Add<&Monomial> for &Monomial {
    type Output = Polynomial;

    /// The sum of two monomials, as a polynomial. Its coefficients
    /// must be in range.
    fn add(self, rhs: &Monomial) -> (r: Polynomial)
        ensures
            r@ == polynomial_sum(monomial_polynomial(self@), monomial_polynomial(rhs@)),
    {
        let self_polynomial = Polynomial::from_monomial(self);
        let rhs_polynomial = Polynomial::from_monomial(rhs);
        match self_polynomial.checked_add(&rhs_polynomial) {
            Some(r) => r,
            None => unreached(),
        }
    }
}

impl AddSpecImpl<&Monomial> for &Monomial {
    open spec fn obeys_add_spec() -> bool {
        false
    }

    open spec fn add_req(self, rhs: &Monomial) -> bool {
        terms_fit(polynomial_sum(monomial_polynomial(self@), monomial_polynomial(rhs@)).monomials)
    }

    open spec fn add_spec(self, rhs: &Monomial) -> Polynomial {
        arbitrary()
    }
}

impl Add<i64> for &Monomial {
    type Output = Polynomial;

    /// The sum of a monomial and a constant, as a polynomial. Its coefficients
    /// must be in range.
    fn add(self, rhs: i64) -> (r: Polynomial)
        ensures
            r@ == polynomial_sum(monomial_polynomial(self@), constant_polynomial(rhs as int)),
    {
        let self_polynomial = Polynomial::from_monomial(self);
        let rhs_polynomial = Polynomial::constant(rhs);
        match self_polynomial.checked_add(&rhs_polynomial) {
            Some(r) => r,
            None => unreached(),
        }
    }
}

impl AddSpecImpl<i64> for &Monomial {
    open spec fn obeys_add_spec() -> bool {
        false
    }

    open spec fn add_req(self, rhs: i64) -> bool {
        terms_fit(polynomial_sum(monomial_polynomial(self@), constant_polynomial(rhs as int)).monomials)
    }

    open spec fn add_spec(self, rhs: i64) -> Polynomial {
        arbitrary()
    }
}

impl Add<&Monomial> for i64 {
    type Output = Polynomial;

    /// The sum of a constant and a monomial, as a polynomial. Its coefficients
    /// must be in range.
    fn add(self, rhs: &Monomial) -> (r: Polynomial)
        ensures
            r@ == polynomial_sum(constant_polynomial(self as int), monomial_polynomial(rhs@)),
    {
        let self_polynomial = Polynomial::constant(self);
        let rhs_polynomial = Polynomial::from_monomial(rhs);
        match self_polynomial.checked_add(&rhs_polynomial) {
            Some(r) => r,
            None => unreached(),
        }
    }
}

impl AddSpecImpl<&Monomial> for i64 {
    open spec fn obeys_add_spec() -> bool {
        false
    }

    open spec fn add_req(self, rhs: &Monomial) -> bool {
        terms_fit(polynomial_sum(constant_polynomial(self as int), monomial_polynomial(rhs@)).monomials)
    }

    open spec fn add_spec(self, rhs: &Monomial) -> Polynomial {
        arbitrary()
    }
}

impl Sub<&Polynomial> for &Polynomial {
    type Output = Polynomial;

    /// The difference of two polynomials, as a polynomial. Its coefficients
    /// must be in range.
    fn sub(self, rhs: &Polynomial) -> (r: Polynomial)
        ensures
            r@ == polynomial_difference(self@, rhs@),
    {
        match self.checked_sub(rhs) {
            Some(r) => r,
            None => unreached(),
        }
    }
}

impl SubSpecImpl<&Polynomial> for &Polynomial {
    open spec fn obeys_sub_spec() -> bool {
        false
    }

    open spec fn sub_req(self, rhs: &Polynomial) -> bool {
        terms_fit(polynomial_difference(self@, rhs@).monomials)
    }

    open spec fn sub_spec(self, rhs: &Polynomial) -> Polynomial {
        arbitrary()
    }
}

impl Sub<&Polynomial> for Polynomial {
    type Output = Polynomial;

    /// The difference of two polynomials, as a polynomial. Its coefficients
    /// must be in range.
    fn sub(self, rhs: &Polynomial) -> (r: Polynomial)
        ensures
            r@ == polynomial_difference(self@, rhs@),
    {
        match self.checked_sub(rhs) {
            Some(r) => r,
            None => unreached(),
        }
    }
}

impl SubSpecImpl<&Polynomial> for Polynomial {
    open spec fn obeys_sub_spec() -> bool {
        false
    }

    open spec fn sub_req(self, rhs: &Polynomial) -> bool {
        terms_fit(polynomial_difference(self@, rhs@).monomials)
    }

    open spec fn sub_spec(self, rhs: &Polynomial) -> Polynomial {
        arbitrary()
    }
}

impl Sub<Polynomial> for &Polynomial {
    type Output = Polynomial;

    /// The difference of two polynomials, as a polynomial. Its coefficients
    /// must be in range.
    fn sub(self, rhs: Polynomial) -> (r: Polynomial)
        ensures
            r@ == polynomial_difference(self@, rhs@),
    {
        match self.checked_sub(&rhs) {
            Some(r) => r,
            None => unreached(),
        }
    }
}

impl SubSpecImpl<Polynomial> for &Polynomial {
    open spec fn obeys_sub_spec() -> bool {
        false
    }

    open spec fn sub_req(self, rhs: Polynomial) -> bool {
        terms_fit(polynomial_difference(self@, rhs@).monomials)
    }

    open spec fn sub_spec(self, rhs: Polynomial) -> Polynomial {
        arbitrary()
    }
}

impl Sub<Polynomial> for Polynomial {
    type Output = Polynomial;

    /// The difference of two polynomials, as a polynomial. Its coefficients
    /// must be in range.
    fn sub(self, rhs: Polynomial) -> (r: Polynomial)
        ensures
            r@ == polynomial_difference(self@, rhs@),
    {
        match self.checked_sub(&rhs) {
            Some(r) => r,
            None => unreached(),
        }
    }
}

impl SubSpecImpl<Polynomial> for Polynomial {
    open spec fn obeys_sub_spec() -> bool {
        false
    }

    open spec fn sub_req(self, rhs: Polynomial) -> bool {
        terms_fit(polynomial_difference(self@, rhs@).monomials)
    }

    open spec fn sub_spec(self, rhs: Polynomial) -> Polynomial {
        arbitrary()
    }
}

impl Sub<i64> for &Polynomial {
    type Output = Polynomial;

    /// The difference of a polynomial and a constant, as a polynomial. Its coefficients
    /// must be in range.
    fn sub(self, rhs: i64) -> (r: Polynomial)
        ensures
            r@ == polynomial_difference(self@, constant_polynomial(rhs as int)),
    {
        let rhs_polynomial = Polynomial::constant(rhs);
        match self.checked_sub(&rhs_polynomial) {
            Some(r) => r,
            None => unreached(),
        }
    }
}

impl SubSpecImpl<i64> for &Polynomial {
    open spec fn obeys_sub_spec() -> bool {
        false
    }

    open spec fn sub_req(self, rhs: i64) -> bool {
        terms_fit(polynomial_difference(self@, constant_polynomial(rhs as int)).monomials)
    }

    open spec fn sub_spec(self, rhs: i64) -> Polynomial {
        arbitrary()
    }
}

impl Sub<i64> for Polynomial {
    type Output = Polynomial;

    /// The difference of a polynomial and a constant, as a polynomial. Its coefficients
    /// must be in range.
    fn sub(self, rhs: i64) -> (r: Polynomial)
        ensures
            r@ == polynomial_difference(self@, constant_polynomial(rhs as int)),
    {
        let rhs_polynomial = Polynomial::constant(rhs);
        match self.checked_sub(&rhs_polynomial) {
            Some(r) => r,
            None => unreached(),
        }
    }
}

impl SubSpecImpl<i64> for Polynomial {
    open spec fn obeys_sub_spec() -> bool {
        false
    }

    open spec fn sub_req(self, rhs: i64) -> bool {
        terms_fit(polynomial_difference(self@, constant_polynomial(rhs as int)).monomials)
    }

    open spec fn sub_spec(self, rhs: i64) -> Polynomial {
        arbitrary()
    }
}

impl Sub<&Polynomial> for i64 {
    type Output = Polynomial;

    /// The difference of a constant and a polynomial, as a polynomial. Its coefficients
    /// must be in range.
    fn sub(self, rhs: &Polynomial) -> (r: Polynomial)
        ensures
            r@ == polynomial_difference(constant_polynomial(self as int), rhs@),
    {
        let self_polynomial = Polynomial::constant(self);
        match self_polynomial.checked_sub(rhs) {
            Some(r) => r,
            None => unreached(),
        }
    }
}

impl SubSpecImpl<&Polynomial> for i64 {
    open spec fn obeys_sub_spec() -> bool {
        false
    }

    open spec fn sub_req(self, rhs: &Polynomial) -> bool {
        terms_fit(polynomial_difference(constant_polynomial(self as int), rhs@).monomials)
    }

    open spec fn sub_spec(self, rhs: &Polynomial) -> Polynomial {
        arbitrary()
    }
}

impl Sub<Polynomial> for i64 {
    type Output = Polynomial;

    /// The difference of a constant and a polynomial, as a polynomial. Its coefficients
    /// must be in range.
    fn sub(self, rhs: Polynomial) -> (r: Polynomial)
        ensures
            r@ == polynomial_difference(constant_polynomial(self as int), rhs@),
    {
        let self_polynomial = Polynomial::constant(self);
        match self_polynomial.checked_sub(&rhs) {
            Some(r) => r,
            None => unreached(),
        }
    }
}

impl SubSpecImpl<Polynomial> for i64 {
    open spec fn obeys_sub_spec() -> bool {
        false
    }

    open spec fn sub_req(self, rhs: Polynomial) -> bool {
        terms_fit(polynomial_difference(constant_polynomial(self as int), rhs@).monomials)
    }

    open spec fn sub_spec(self, rhs: Polynomial) -> Polynomial {
        arbitrary()
    }
}

impl Sub<&Monomial> for &Polynomial {
    type Output = Polynomial;

    /// The difference of a polynomial and a monomial, as a polynomial. Its coefficients
    /// must be in range.
    fn sub(self, rhs: &Monomial) -> (r: Polynomial)
        ensures
            r@ == polynomial_difference(self@, monomial_polynomial(rhs@)),
    {
        let rhs_polynomial = Polynomial::from_monomial(rhs);
        match self.checked_sub(&rhs_polynomial) {
            Some(r) => r,
            None => unreached(),
        }
    }
}

impl SubSpecImpl<&Monomial> for &Polynomial {
    open spec fn obeys_sub_spec() -> bool {
        false
    }

    open spec fn sub_req(self, rhs: &Monomial) -> bool {
        terms_fit(polynomial_difference(self@, monomial_polynomial(rhs@)).monomials)
    }

    open spec fn sub_spec(self, rhs: &Monomial) -> Polynomial {
        arbitrary()
    }
}

impl Sub<&Monomial> for Polynomial {
    type Output = Polynomial;

    /// The difference of a polynomial and a monomial, as a polynomial. Its coefficients
    /// must be in range.
    fn sub(self, rhs: &Monomial) -> (r: Polynomial)
        ensures
            r@ == polynomial_difference(self@, monomial_polynomial(rhs@)),
    {
        let rhs_polynomial = Polynomial::from_monomial(rhs);
        match self.checked_sub(&rhs_polynomial) {
            Some(r) => r,
            None => unreached(),
        }
    }
}

impl SubSpecImpl<&Monomial> for Polynomial {
    open spec fn obeys_sub_spec() -> bool {
        false
    }

    open spec fn sub_req(self, rhs: &Monomial) -> bool {
        terms_fit(polynomial_difference(self@, monomial_polynomial(rhs@)).monomials)
    }

    open spec fn sub_spec(self, rhs: &Monomial) -> Polynomial {
        arbitrary()
    }
}

impl Sub<&Polynomial> for &Monomial {
    type Output = Polynomial;

    /// The difference of a monomial and a polynomial, as a polynomial. Its coefficients
    /// must be in range.
    fn sub(self, rhs: &Polynomial) -> (r: Polynomial)
        ensures
            r@ == polynomial_difference(monomial_polynomial(self@), rhs@),
    {
        let self_polynomial = Polynomial::from_monomial(self);
        match self_polynomial.checked_sub(rhs) {
            Some(r) => r,
            None => unreached(),
        }
    }
}

impl SubSpecImpl<&Polynomial> for &Monomial {
    open spec fn obeys_sub_spec() -> bool {
        false
    }

    open spec fn sub_req(self, rhs: &Polynomial) -> bool {
        terms_fit(polynomial_difference(monomial_polynomial(self@), rhs@).monomials)
    }

    open spec fn sub_spec(self, rhs: &Polynomial) -> Polynomial {
        arbitrary()
    }
}

impl Sub<&Monomial> for &Monomial {
    type Output = Polynomial;

    /// The difference of two monomials, as a polynomial. Its coefficients
    /// must be in range.
    fn sub(self, rhs: &Monomial) -> (r: Polynomial)
        ensures
            r@ == polynomial_difference(monomial_polynomial(self@), monomial_polynomial(rhs@)),
    {
        let self_polynomial = Polynomial::from_monomial(self);
        let rhs_polynomial = Polynomial::from_monomial(rhs);
        match self_polynomial.checked_sub(&rhs_polynomial) {
            Some(r) => r,
            None => unreached(),
        }
    }
}

impl SubSpecImpl<&Monomial> for &Monomial {
    open spec fn obeys_sub_spec() -> bool {
        false
    }

    open spec fn sub_req(self, rhs: &Monomial) -> bool {
        terms_fit(polynomial_difference(monomial_polynomial(self@), monomial_polynomial(rhs@)).monomials)
    }

    open spec fn sub_spec(self, rhs: &Monomial) -> Polynomial {
        arbitrary()
    }
}

impl Sub<i64> for &Monomial {
    type Output = Polynomial;

    /// The difference of a monomial and a constant, as a polynomial. Its coefficients
    /// must be in range.
    fn sub(self, rhs: i64) -> (r: Polynomial)
        ensures
            r@ == polynomial_difference(monomial_polynomial(self@), constant_polynomial(rhs as int)),
    {
        let self_polynomial = Polynomial::from_monomial(self);
        let rhs_polynomial = Polynomial::constant(rhs);
        match self_polynomial.checked_sub(&rhs_polynomial) {
            Some(r) => r,
            None => unreached(),
        }
    }
}

impl SubSpecImpl<i64> for &Monomial {
    open spec fn obeys_sub_spec() -> bool {
        false
    }

    open spec fn sub_req(self, rhs: i64) -> bool {
        terms_fit(polynomial_difference(monomial_polynomial(self@), constant_polynomial(rhs as int)).monomials)
    }

    open spec fn sub_spec(self, rhs: i64) -> Polynomial {
        arbitrary()
    }
}

impl Sub<&Monomial> for i64 {
    type Output = Polynomial;

    /// The difference of a constant and a monomial, as a polynomial. Its coefficients
    /// must be in range.
    fn sub(self, rhs: &Monomial) -> (r: Polynomial)
        ensures
            r@ == polynomial_difference(constant_polynomial(self as int), monomial_polynomial(rhs@)),
    {
        let self_polynomial = Polynomial::constant(self);
        let rhs_polynomial = Polynomial::from_monomial(rhs);
        match self_polynomial.checked_sub(&rhs_polynomial) {
            Some(r) => r,
            None => unreached(),
        }
    }
}

impl SubSpecImpl<&Monomial> for i64 {
    open spec fn obeys_sub_spec() -> bool {
        false
    }

    open spec fn sub_req(self, rhs: &Monomial) -> bool {
        terms_fit(polynomial_difference(constant_polynomial(self as int), monomial_polynomial(rhs@)).monomials)
    }

    open spec fn sub_spec(self, rhs: &Monomial) -> Polynomial {
        arbitrary()
    }
}

impl Mul<&Polynomial> for &Polynomial {
    type Output = Polynomial;

    /// The product of two polynomials. Every product of terms and every sum
    /// of them must be in range.
    fn mul(self, rhs: &Polynomial) -> (r: Polynomial)
        ensures
            r@ == polynomial_product(self@, rhs@),
    {
        match self.checked_mul(rhs) {
            Some(r) => r,
            None => unreached(),
        }
    }
}

impl MulSpecImpl<&Polynomial> for &Polynomial {
    open spec fn obeys_mul_spec() -> bool {
        false
    }

    open spec fn mul_req(self, rhs: &Polynomial) -> bool {
        product_fits(self@, rhs@)
    }

    open spec fn mul_spec(self, rhs: &Polynomial) -> Polynomial {
        arbitrary()
    }
}

impl Mul<&Polynomial> for Polynomial {
    type Output = Polynomial;

    /// The product of two polynomials. Every product of terms and every sum
    /// of them must be in range.
    fn mul(self, rhs: &Polynomial) -> (r: Polynomial)
        ensures
            r@ == polynomial_product(self@, rhs@),
    {
        match self.checked_mul(rhs) {
            Some(r) => r,
            None => unreached(),
        }
    }
}

impl MulSpecImpl<&Polynomial> for Polynomial {
    open spec fn obeys_mul_spec() -> bool {
        false
    }

    open spec fn mul_req(self, rhs: &Polynomial) -> bool {
        product_fits(self@, rhs@)
    }

    open spec fn mul_spec(self, rhs: &Polynomial) -> Polynomial {
        arbitrary()
    }
}

impl Mul<Polynomial> for &Polynomial {
    type Output = Polynomial;

    /// The product of two polynomials. Every product of terms and every sum
    /// of them must be in range.
    fn mul(self, rhs: Polynomial) -> (r: Polynomial)
        ensures
            r@ == polynomial_product(self@, rhs@),
    {
        match self.checked_mul(&rhs) {
            Some(r) => r,
            None => unreached(),
        }
    }
}

impl MulSpecImpl<Polynomial> for &Polynomial {
    open spec fn obeys_mul_spec() -> bool {
        false
    }

    open spec fn mul_req(self, rhs: Polynomial) -> bool {
        product_fits(self@, rhs@)
    }

    open spec fn mul_spec(self, rhs: Polynomial) -> Polynomial {
        arbitrary()
    }
}

impl Mul<Polynomial> for Polynomial {
    type Output = Polynomial;

    /// The product of two polynomials. Every product of terms and every sum
    /// of them must be in range.
    fn mul(self, rhs: Polynomial) -> (r: Polynomial)
        ensures
            r@ == polynomial_product(self@, rhs@),
    {
        match self.checked_mul(&rhs) {
            Some(r) => r,
            None => unreached(),
        }
    }
}

impl MulSpecImpl<Polynomial> for Polynomial {
    open spec fn obeys_mul_spec() -> bool {
        false
    }

    open spec fn mul_req(self, rhs: Polynomial) -> bool {
        product_fits(self@, rhs@)
    }

    open spec fn mul_spec(self, rhs: Polynomial) -> Polynomial {
        arbitrary()
    }
}

impl Mul<&Monomial> for &Polynomial {
    type Output = Polynomial;

    /// The product of a polynomial and a monomial, as a polynomial. Every
    /// product of terms and every sum of them must be in range.
    fn mul(self, rhs: &Monomial) -> (r: Polynomial)
        ensures
            r@ == polynomial_times_monomial(self@, rhs@),
    {
        match self.checked_mul_monomial(rhs) {
            Some(r) => r,
            None => unreached(),
        }
    }
}

impl MulSpecImpl<&Monomial> for &Polynomial {
    open spec fn obeys_mul_spec() -> bool {
        false
    }

    open spec fn mul_req(self, rhs: &Monomial) -> bool {
        times_monomial_fits(self@, rhs@)
    }

    open spec fn mul_spec(self, rhs: &Monomial) -> Polynomial {
        arbitrary()
    }
}

impl Mul<&Monomial> for Polynomial {
    type Output = Polynomial;

    /// The product of a polynomial and a monomial, as a polynomial. Every
    /// product of terms and every sum of them must be in range.
    fn mul(self, rhs: &Monomial) -> (r: Polynomial)
        ensures
            r@ == polynomial_times_monomial(self@, rhs@),
    {
        match self.checked_mul_monomial(rhs) {
            Some(r) => r,
            None => unreached(),
        }
    }
}

impl MulSpecImpl<&Monomial> for Polynomial {
    open spec fn obeys_mul_spec() -> bool {
        false
    }

    open spec fn mul_req(self, rhs: &Monomial) -> bool {
        times_monomial_fits(self@, rhs@)
    }

    open spec fn mul_spec(self, rhs: &Monomial) -> Polynomial {
        arbitrary()
    }
}

impl Mul<i64> for &Polynomial {
    type Output = Polynomial;

    /// The product of a polynomial and a constant, as a polynomial. Every
    /// product of terms and every sum of them must be in range.
    fn mul(self, rhs: i64) -> (r: Polynomial)
        ensures
            r@ == polynomial_times_monomial(self@, constant_monomial(rhs as int)),
    {
        let rhs_monomial = Monomial::constant(rhs);
        match self.checked_mul_monomial(&rhs_monomial) {
            Some(r) => r,
            None => unreached(),
        }
    }
}

impl MulSpecImpl<i64> for &Polynomial {
    open spec fn obeys_mul_spec() -> bool {
        false
    }

    open spec fn mul_req(self, rhs: i64) -> bool {
        times_monomial_fits(self@, constant_monomial(rhs as int))
    }

    open spec fn mul_spec(self, rhs: i64) -> Polynomial {
        arbitrary()
    }
}

impl Mul<i64> for Polynomial {
    type Output = Polynomial;

    /// The product of a polynomial and a constant, as a polynomial. Every
    /// product of terms and every sum of them must be in range.
    fn mul(self, rhs: i64) -> (r: Polynomial)
        ensures
            r@ == polynomial_times_monomial(self@, constant_monomial(rhs as int)),
    {
        let rhs_monomial = Monomial::constant(rhs);
        match self.checked_mul_monomial(&rhs_monomial) {
            Some(r) => r,
            None => unreached(),
        }
    }
}

impl MulSpecImpl<i64> for Polynomial {
    open spec fn obeys_mul_spec() -> bool {
        false
    }

    open spec fn mul_req(self, rhs: i64) -> bool {
        times_monomial_fits(self@, constant_monomial(rhs as int))
    }

    open spec fn mul_spec(self, rhs: i64) -> Polynomial {
        arbitrary()
    }
}

impl Mul<&Polynomial> for &Monomial {
    type Output = Polynomial;

    /// The product of a monomial and a polynomial, as a polynomial. Every
    /// product of terms and every sum of them must be in range.
    fn mul(self, rhs: &Polynomial) -> (r: Polynomial)
        ensures
            r@ == polynomial_times_monomial(rhs@, self@),
    {
        match rhs.checked_mul_monomial(self) {
            Some(r) => r,
            None => unreached(),
        }
    }
}

impl MulSpecImpl<&Polynomial> for &Monomial {
    open spec fn obeys_mul_spec() -> bool {
        false
    }

    open spec fn mul_req(self, rhs: &Polynomial) -> bool {
        times_monomial_fits(rhs@, self@)
    }

    open spec fn mul_spec(self, rhs: &Polynomial) -> Polynomial {
        arbitrary()
    }
}

impl Mul<&Polynomial> for i64 {
    type Output = Polynomial;

    /// The product of a constant and a polynomial, as a polynomial. Every
    /// product of terms and every sum of them must be in range.
    fn mul(self, rhs: &Polynomial) -> (r: Polynomial)
        ensures
            r@ == polynomial_times_monomial(rhs@, constant_monomial(self as int)),
    {
        let self_monomial = Monomial::constant(self);
        match rhs.checked_mul_monomial(&self_monomial) {
            Some(r) => r,
            None => unreached(),
        }
    }
}

impl MulSpecImpl<&Polynomial> for i64 {
    open spec fn obeys_mul_spec() -> bool {
        false
    }

    open spec fn mul_req(self, rhs: &Polynomial) -> bool {
        times_monomial_fits(rhs@, constant_monomial(self as int))
    }

    open spec fn mul_spec(self, rhs: &Polynomial) -> Polynomial {
        arbitrary()
    }
}

impl Mul<Polynomial> for i64 {
    type Output = Polynomial;

    /// The product of a constant and a polynomial, as a polynomial. Every
    /// product of terms and every sum of them must be in range.
    fn mul(self, rhs: Polynomial) -> (r: Polynomial)
        ensures
            r@ == polynomial_times_monomial(rhs@, constant_monomial(self as int)),
    {
        let self_monomial = Monomial::constant(self);
        match rhs.checked_mul_monomial(&self_monomial) {
            Some(r) => r,
            None => unreached(),
        }
    }
}

impl MulSpecImpl<Polynomial> for i64 {
    open spec fn obeys_mul_spec() -> bool {
        false
    }

    open spec fn mul_req(self, rhs: Polynomial) -> bool {
        times_monomial_fits(rhs@, constant_monomial(self as int))
    }

    open spec fn mul_spec(self, rhs: Polynomial) -> Polynomial {
        arbitrary()
    }
}

impl Mul<&Monomial> for &Monomial {
    type Output = Monomial;

    /// The product of two monomials, as a monomial. Its
    /// coefficient and powers must be in range.
    fn mul(self, rhs: &Monomial) -> (r: Monomial)
        ensures
            r@ == monomial_product(self@, rhs@),
    {
        match self.checked_mul(rhs) {
            Some(r) => r,
            None => unreached(),
        }
    }
}

impl MulSpecImpl<&Monomial> for &Monomial {
    open spec fn obeys_mul_spec() -> bool {
        false
    }

    open spec fn mul_req(self, rhs: &Monomial) -> bool {
        monomial_fits(monomial_product(self@, rhs@))
    }

    open spec fn mul_spec(self, rhs: &Monomial) -> Monomial {
        arbitrary()
    }
}

impl Mul<&Monomial> for Monomial {
    type Output = Monomial;

    /// The product of two monomials, as a monomial. Its
    /// coefficient and powers must be in range.
    fn mul(self, rhs: &Monomial) -> (r: Monomial)
        ensures
            r@ == monomial_product(self@, rhs@),
    {
        match self.checked_mul(rhs) {
            Some(r) => r,
            None => unreached(),
        }
    }
}

impl MulSpecImpl<&Monomial> for Monomial {
    open spec fn obeys_mul_spec() -> bool {
        false
    }

    open spec fn mul_req(self, rhs: &Monomial) -> bool {
        monomial_fits(monomial_product(self@, rhs@))
    }

    open spec fn mul_spec(self, rhs: &Monomial) -> Monomial {
        arbitrary()
    }
}

impl Mul<i64> for &Monomial {
    type Output = Monomial;

    /// The product of a monomial and a constant, as a monomial. Its
    /// coefficient and powers must be in range.
    fn mul(self, rhs: i64) -> (r: Monomial)
        ensures
            r@ == monomial_product(self@, constant_monomial(rhs as int)),
    {
        let rhs_monomial = Monomial::constant(rhs);
        match self.checked_mul(&rhs_monomial) {
            Some(r) => r,
            None => unreached(),
        }
    }
}

impl MulSpecImpl<i64> for &Monomial {
    open spec fn obeys_mul_spec() -> bool {
        false
    }

    open spec fn mul_req(self, rhs: i64) -> bool {
        monomial_fits(monomial_product(self@, constant_monomial(rhs as int)))
    }

    open spec fn mul_spec(self, rhs: i64) -> Monomial {
        arbitrary()
    }
}

impl Mul<i64> for Monomial {
    type Output = Monomial;

    /// The product of a monomial and a constant, as a monomial. Its
    /// coefficient and powers must be in range.
    fn mul(self, rhs: i64) -> (r: Monomial)
        ensures
            r@ == monomial_product(self@, constant_monomial(rhs as int)),
    {
        let rhs_monomial = Monomial::constant(rhs);
        match self.checked_mul(&rhs_monomial) {
            Some(r) => r,
            None => unreached(),
        }
    }
}

impl MulSpecImpl<i64> for Monomial {
    open spec fn obeys_mul_spec() -> bool {
        false
    }

    open spec fn mul_req(self, rhs: i64) -> bool {
        monomial_fits(monomial_product(self@, constant_monomial(rhs as int)))
    }

    open spec fn mul_spec(self, rhs: i64) -> Monomial {
        arbitrary()
    }
}

impl Mul<&Monomial> for i64 {
    type Output = Monomial;

    /// The product of a constant and a monomial, as a monomial. Its
    /// coefficient and powers must be in range.
    fn mul(self, rhs: &Monomial) -> (r: Monomial)
        ensures
            r@ == monomial_product(constant_monomial(self as int), rhs@),
    {
        let self_monomial = Monomial::constant(self);
        match self_monomial.checked_mul(rhs) {
            Some(r) => r,
            None => unreached(),
        }
    }
}

impl MulSpecImpl<&Monomial> for i64 {
    open spec fn obeys_mul_spec() -> bool {
        false
    }

    open spec fn mul_req(self, rhs: &Monomial) -> bool {
        monomial_fits(monomial_product(constant_monomial(self as int), rhs@))
    }

    open spec fn mul_spec(self, rhs: &Monomial) -> Monomial {
        arbitrary()
    }
}

impl Mul<Monomial> for i64 {
    type Output = Monomial;

    /// The product of a constant and a monomial, as a monomial. Its
    /// coefficient and powers must be in range.
    fn mul(self, rhs: Monomial) -> (r: Monomial)
        ensures
            r@ == monomial_product(constant_monomial(self as int), rhs@),
    {
        let self_monomial = Monomial::constant(self);
        match self_monomial.checked_mul(&rhs) {
            Some(r) => r,
            None => unreached(),
        }
    }
}

impl MulSpecImpl<Monomial> for i64 {
    open spec fn obeys_mul_spec() -> bool {
        false
    }

    open spec fn mul_req(self, rhs: Monomial) -> bool {
        monomial_fits(monomial_product(constant_monomial(self as int), rhs@))
    }

    open spec fn mul_spec(self, rhs: Monomial) -> Monomial {
        arbitrary()
    }
}

impl Div<&Polynomial> for &Polynomial {
    type Output = Polynomial;

    /// The exact quotient of a polynomial by a polynomial. The operands
    /// must be canonical and the long division must leave no remainder.
    fn div(self, rhs: &Polynomial) -> (r: Polynomial)
        ensures
            polynomial_quotient(self@, rhs@) == Some(r@),
    {
        match self.checked_div(rhs) {
            Some(r) => r,
            None => unreached(),
        }
    }
}

impl DivSpecImpl<&Polynomial> for &Polynomial {
    open spec fn obeys_div_spec() -> bool {
        false
    }

    open spec fn div_req(self, rhs: &Polynomial) -> bool {
        polynomial_wf(self@) && polynomial_wf(rhs@) && polynomial_quotient(self@, rhs@).is_some()
    }

    open spec fn div_spec(self, rhs: &Polynomial) -> Polynomial {
        arbitrary()
    }
}

impl Div<&Polynomial> for Polynomial {
    type Output = Polynomial;

    /// The exact quotient of a polynomial by a polynomial. The operands
    /// must be canonical and the long division must leave no remainder.
    fn div(self, rhs: &Polynomial) -> (r: Polynomial)
        ensures
            polynomial_quotient(self@, rhs@) == Some(r@),
    {
        match self.checked_div(rhs) {
            Some(r) => r,
            None => unreached(),
        }
    }
}

impl DivSpecImpl<&Polynomial> for Polynomial {
    open spec fn obeys_div_spec() -> bool {
        false
    }

    open spec fn div_req(self, rhs: &Polynomial) -> bool {
        polynomial_wf(self@) && polynomial_wf(rhs@) && polynomial_quotient(self@, rhs@).is_some()
    }

    open spec fn div_spec(self, rhs: &Polynomial) -> Polynomial {
        arbitrary()
    }
}

impl Div<Polynomial> for &Polynomial {
    type Output = Polynomial;

    /// The exact quotient of a polynomial by a polynomial. The operands
    /// must be canonical and the long division must leave no remainder.
    fn div(self, rhs: Polynomial) -> (r: Polynomial)
        ensures
            polynomial_quotient(self@, rhs@) == Some(r@),
    {
        match self.checked_div(&rhs) {
            Some(r) => r,
            None => unreached(),
        }
    }
}

impl DivSpecImpl<Polynomial> for &Polynomial {
    open spec fn obeys_div_spec() -> bool {
        false
    }

    open spec fn div_req(self, rhs: Polynomial) -> bool {
        polynomial_wf(self@) && polynomial_wf(rhs@) && polynomial_quotient(self@, rhs@).is_some()
    }

    open spec fn div_spec(self, rhs: Polynomial) -> Polynomial {
        arbitrary()
    }
}

impl Div<Polynomial> for Polynomial {
    type Output = Polynomial;

    /// The exact quotient of a polynomial by a polynomial. The operands
    /// must be canonical and the long division must leave no remainder.
    fn div(self, rhs: Polynomial) -> (r: Polynomial)
        ensures
            polynomial_quotient(self@, rhs@) == Some(r@),
    {
        match self.checked_div(&rhs) {
            Some(r) => r,
            None => unreached(),
        }
    }
}

impl DivSpecImpl<Polynomial> for Polynomial {
    open spec fn obeys_div_spec() -> bool {
        false
    }

    open spec fn div_req(self, rhs: Polynomial) -> bool {
        polynomial_wf(self@) && polynomial_wf(rhs@) && polynomial_quotient(self@, rhs@).is_some()
    }

    open spec fn div_spec(self, rhs: Polynomial) -> Polynomial {
        arbitrary()
    }
}

impl Div<&Monomial> for &Polynomial {
    type Output = Polynomial;

    /// The exact quotient of a polynomial by a monomial. The operands
    /// must be canonical and the long division must leave no remainder.
    fn div(self, rhs: &Monomial) -> (r: Polynomial)
        ensures
            polynomial_quotient(self@, monomial_polynomial(rhs@)) == Some(r@),
    {
        let rhs_polynomial = Polynomial::from_monomial(rhs);
        match self.checked_div(&rhs_polynomial) {
            Some(r) => r,
            None => unreached(),
        }
    }
}

impl DivSpecImpl<&Monomial> for &Polynomial {
    open spec fn obeys_div_spec() -> bool {
        false
    }

    open spec fn div_req(self, rhs: &Monomial) -> bool {
        polynomial_wf(self@) && monomial_wf(rhs@) && polynomial_quotient(self@, monomial_polynomial(rhs@)).is_some()
    }

    open spec fn div_spec(self, rhs: &Monomial) -> Polynomial {
        arbitrary()
    }
}

impl Div<i64> for &Polynomial {
    type Output = Polynomial;

    /// The exact quotient of a polynomial by a constant. The operands
    /// must be canonical and the long division must leave no remainder.
    fn div(self, rhs: i64) -> (r: Polynomial)
        ensures
            polynomial_quotient(self@, constant_polynomial(rhs as int)) == Some(r@),
    {
        let rhs_polynomial = Polynomial::constant(rhs);
        match self.checked_div(&rhs_polynomial) {
            Some(r) => r,
            None => unreached(),
        }
    }
}

impl DivSpecImpl<i64> for &Polynomial {
    open spec fn obeys_div_spec() -> bool {
        false
    }

    open spec fn div_req(self, rhs: i64) -> bool {
        polynomial_wf(self@) && polynomial_quotient(self@, constant_polynomial(rhs as int)).is_some()
    }

    open spec fn div_spec(self, rhs: i64) -> Polynomial {
        arbitrary()
    }
}

impl Div<i64> for Polynomial {
    type Output = Polynomial;

    /// The exact quotient of a polynomial by a constant. The operands
    /// must be canonical and the long division must leave no remainder.
    fn div(self, rhs: i64) -> (r: Polynomial)
        ensures
            polynomial_quotient(self@, constant_polynomial(rhs as int)) == Some(r@),
    {
        let rhs_polynomial = Polynomial::constant(rhs);
        match self.checked_div(&rhs_polynomial) {
            Some(r) => r,
            None => unreached(),
        }
    }
}

impl DivSpecImpl<i64> for Polynomial {
    open spec fn obeys_div_spec() -> bool {
        false
    }

    open spec fn div_req(self, rhs: i64) -> bool {
        polynomial_wf(self@) && polynomial_quotient(self@, constant_polynomial(rhs as int)).is_some()
    }

    open spec fn div_spec(self, rhs: i64) -> Polynomial {
        arbitrary()
    }
}

impl Div<&Monomial> for &Monomial {
    type Output = Monomial;

    /// The exact quotient of a monomial by a monomial. There must be one.
    fn div(self, rhs: &Monomial) -> (r: Monomial)
        ensures
            monomial_quotient(self@, rhs@) == Some(r@),
    {
        match self.checked_div(rhs) {
            Some(r) => r,
            None => unreached(),
        }
    }
}

impl DivSpecImpl<&Monomial> for &Monomial {
    open spec fn obeys_div_spec() -> bool {
        false
    }

    open spec fn div_req(self, rhs: &Monomial) -> bool {
        monomial_quotient(self@, rhs@).is_some()
    }

    open spec fn div_spec(self, rhs: &Monomial) -> Monomial {
        arbitrary()
    }
}

impl Div<&Monomial> for Monomial {
    type Output = Monomial;

    /// The exact quotient of a monomial by a monomial. There must be one.
    fn div(self, rhs: &Monomial) -> (r: Monomial)
        ensures
            monomial_quotient(self@, rhs@) == Some(r@),
    {
        match self.checked_div(rhs) {
            Some(r) => r,
            None => unreached(),
        }
    }
}

impl DivSpecImpl<&Monomial> for Monomial {
    open spec fn obeys_div_spec() -> bool {
        false
    }

    open spec fn div_req(self, rhs: &Monomial) -> bool {
        monomial_quotient(self@, rhs@).is_some()
    }

    open spec fn div_spec(self, rhs: &Monomial) -> Monomial {
        arbitrary()
    }
}

impl Div<i64> for &Monomial {
    type Output = Monomial;

    /// The exact quotient of a monomial by a constant. There must be one.
    fn div(self, rhs: i64) -> (r: Monomial)
        ensures
            monomial_quotient(self@, constant_monomial(rhs as int)) == Some(r@),
    {
        let rhs_monomial = Monomial::constant(rhs);
        match self.checked_div(&rhs_monomial) {
            Some(r) => r,
            None => unreached(),
        }
    }
}

impl DivSpecImpl<i64> for &Monomial {
    open spec fn obeys_div_spec() -> bool {
        false
    }

    open spec fn div_req(self, rhs: i64) -> bool {
        monomial_quotient(self@, constant_monomial(rhs as int)).is_some()
    }

    open spec fn div_spec(self, rhs: i64) -> Monomial {
        arbitrary()
    }
}

impl Div<i64> for Monomial {
    type Output = Monomial;

    /// The exact quotient of a monomial by a constant. There must be one.
    fn div(self, rhs: i64) -> (r: Monomial)
        ensures
            monomial_quotient(self@, constant_monomial(rhs as int)) == Some(r@),
    {
        let rhs_monomial = Monomial::constant(rhs);
        match self.checked_div(&rhs_monomial) {
            Some(r) => r,
            None => unreached(),
        }
    }
}

impl DivSpecImpl<i64> for Monomial {
    open spec fn obeys_div_spec() -> bool {
        false
    }

    open spec fn div_req(self, rhs: i64) -> bool {
        monomial_quotient(self@, constant_monomial(rhs as int)).is_some()
    }

    open spec fn div_spec(self, rhs: i64) -> Monomial {
        arbitrary()
    }
}

impl Neg for &Polynomial {
    type Output = Polynomial;

    /// The polynomial with every coefficient negated, which must be in
    /// range.
    fn neg(self) -> (r: Polynomial)
        ensures
            r@ == polynomial_negation(self@),
    {
        match self.checked_neg() {
            Some(r) => r,
            None => unreached(),
        }
    }
}

impl NegSpecImpl for &Polynomial {
    open spec fn obeys_neg_spec() -> bool {
        false
    }

    open spec fn neg_req(self) -> bool {
        terms_fit(polynomial_negation(self@).monomials)
    }

    open spec fn neg_spec(self) -> Polynomial {
        arbitrary()
    }
}

impl Neg for Polynomial {
    type Output = Polynomial;

    /// The polynomial with every coefficient negated, which must be in
    /// range.
    fn neg(self) -> (r: Polynomial)
        ensures
            r@ == polynomial_negation(self@),
    {
        match self.checked_neg() {
            Some(r) => r,
            None => unreached(),
        }
    }
}

impl NegSpecImpl for Polynomial {
    open spec fn obeys_neg_spec() -> bool {
        false
    }

    open spec fn neg_req(self) -> bool {
        terms_fit(polynomial_negation(self@).monomials)
    }

    open spec fn neg_spec(self) -> Polynomial {
        arbitrary()
    }
}

impl Neg for &Monomial {
    type Output = Monomial;

    /// The monomial with its coefficient negated, which must be in
    /// range.
    fn neg(self) -> (r: Monomial)
        ensures
            r@ == monomial_negation(self@),
    {
        match self.checked_neg() {
            Some(r) => r,
            None => unreached(),
        }
    }
}

impl NegSpecImpl for &Monomial {
    open spec fn obeys_neg_spec() -> bool {
        false
    }

    open spec fn neg_req(self) -> bool {
        fits_i64(-self@.coefficient)
    }

    open spec fn neg_spec(self) -> Monomial {
        arbitrary()
    }
}

impl Neg for Monomial {
    type Output = Monomial;

    /// The monomial with its coefficient negated, which must be in
    /// range.
    fn neg(self) -> (r: Monomial)
        ensures
            r@ == monomial_negation(self@),
    {
        match self.checked_neg() {
            Some(r) => r,
            None => unreached(),
        }
    }
}

impl NegSpecImpl for Monomial {
    open spec fn obeys_neg_spec() -> bool {
        false
    }

    open spec fn neg_req(self) -> bool {
        fits_i64(-self@.coefficient)
    }

    open spec fn neg_spec(self) -> Monomial {
        arbitrary()
    }
}

} // verus!
