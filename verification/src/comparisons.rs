//! The operators `==`, `<` and their kin on composites, polynomials,
//! monomials and constants. Two values of one type are equal where their
//! models are, and compare in the canonical order; a polynomial or a
//! monomial compares with a constant by value where it is a constant
//! itself, and is greater otherwise.
use vstd::prelude::*;
use vstd::std_specs::cmp::{PartialEqSpecImpl, PartialOrdSpecImpl};
use std::cmp::Ordering;
use crate::composite::Composite;
use crate::model::{
    compare_composites, compare_ints, compare_monomials, compare_polynomials, Comparison,
    MonomialModel, PolynomialModel,
};
use crate::monomial::Monomial;
use crate::order::{
    lemma_compare_composites_equal, lemma_compare_monomials_equal,
    lemma_compare_polynomials_equal,
};
use crate::polynomial::{constant_value, polynomial_is_constant, Polynomial};

verus! {

/// A comparison as the standard library states it.
pub open spec fn ordering_of(c: Comparison) -> Ordering {
    match c {
        Comparison::Less => Ordering::Less,
        Comparison::Equal => Ordering::Equal,
        Comparison::Greater => Ordering::Greater,
    }
}

/// A comparison as the standard library states it.
pub fn to_ordering(c: Comparison) -> (r: Ordering)
    ensures
        r == ordering_of(c),
{
    match c {
        Comparison::Less => Ordering::Less,
        Comparison::Equal => Ordering::Equal,
        Comparison::Greater => Ordering::Greater,
    }
}

/// How a polynomial stands to a constant: by value where it is a constant,
/// above it otherwise.
pub open spec fn compare_polynomial_with_constant(p: PolynomialModel, c: int) -> Comparison {
    if polynomial_is_constant(p) {
        compare_ints(constant_value(p), c)
    } else {
        Comparison::Greater
    }
}

/// How a monomial stands to a constant: by value where it is a constant,
/// above it otherwise.
pub open spec fn compare_monomial_with_constant(m: MonomialModel, c: int) -> Comparison {
    if m.powers.len() == 0 {
        compare_ints(m.coefficient, c)
    } else {
        Comparison::Greater
    }
}

/// Whether a polynomial is the constant `c`.
pub open spec fn polynomial_equals_constant(p: PolynomialModel, c: int) -> bool {
    polynomial_is_constant(p) && constant_value(p) == c
}

/// Whether a monomial is the constant `c`.
pub open spec fn monomial_equals_constant(m: MonomialModel, c: int) -> bool {
    m.powers.len() == 0 && m.coefficient == c
}

/// Compares two integers.
pub fn compare_values(a: i64, b: i64) -> (r: Comparison)
    ensures
        r == compare_ints(a as int, b as int),
{
    if a < b {
        Comparison::Less
    } else if a == b {
        Comparison::Equal
    } else {
        Comparison::Greater
    }
}

impl Polynomial {
    /// How the polynomial stands to a constant: by value where it is a
    /// constant, above it otherwise.
    pub fn compare_with_constant(&self, c: i64) -> (r: Comparison)
        ensures
            r == compare_polynomial_with_constant(self@, c as int),
    {
        if self.is_constant() {
            compare_values(self.constant_value(), c)
        } else {
            Comparison::Greater
        }
    }

    /// Whether the polynomial is the constant `c`.
    pub fn equals_constant(&self, c: i64) -> (r: bool)
        ensures
            r == polynomial_equals_constant(self@, c as int),
    {
        self.is_constant() && self.constant_value() == c
    }
}

impl Monomial {
    /// How the monomial stands to a constant: by value where it is a
    /// constant, above it otherwise.
    pub fn compare_with_constant(&self, c: i64) -> (r: Comparison)
        ensures
            r == compare_monomial_with_constant(self@, c as int),
    {
        if self.is_constant() {
            compare_values(self.coefficient, c)
        } else {
            Comparison::Greater
        }
    }

    /// Whether the monomial is the constant `c`.
    pub fn equals_constant(&self, c: i64) -> (r: bool)
        ensures
            r == monomial_equals_constant(self@, c as int),
    {
        self.is_constant() && self.coefficient == c
    }
}

impl PartialEq for Composite {
    /// Whether the two composites are the same: of one kind, with the same
    /// identifier or the same operands. Operands are compared by value.
    fn eq(&self, other: &Composite) -> (r: bool) {
        proof {
            lemma_compare_composites_equal(self@, other@);
        }
        self.compare(other) == Comparison::Equal
    }
}

impl PartialEqSpecImpl for Composite {
    open spec fn obeys_eq_spec() -> bool {
        true
    }

    open spec fn eq_spec(&self, other: &Composite) -> bool {
        self@ == other@
    }
}

impl PartialEq for Monomial {
    /// Whether the two monomials have the same coefficient and the same
    /// factors with the same powers.
    fn eq(&self, other: &Monomial) -> (r: bool) {
        proof {
            lemma_compare_monomials_equal(self@, other@);
        }
        self.compare(other) == Comparison::Equal
    }
}

impl PartialEqSpecImpl for Monomial {
    open spec fn obeys_eq_spec() -> bool {
        true
    }

    open spec fn eq_spec(&self, other: &Monomial) -> bool {
        self@ == other@
    }
}

impl PartialEq for Polynomial {
    /// Whether the two polynomials have the same terms.
    fn eq(&self, other: &Polynomial) -> (r: bool) {
        proof {
            lemma_compare_polynomials_equal(self@, other@);
        }
        self.compare(other) == Comparison::Equal
    }
}

impl PartialEqSpecImpl for Polynomial {
    open spec fn obeys_eq_spec() -> bool {
        true
    }

    open spec fn eq_spec(&self, other: &Polynomial) -> bool {
        self@ == other@
    }
}

impl PartialOrd for Composite {
    /// The canonical order on composites.
    fn partial_cmp(&self, other: &Composite) -> (r: Option<Ordering>) {
        Some(to_ordering(self.compare(other)))
    }
}

impl PartialOrdSpecImpl for Composite {
    open spec fn obeys_partial_cmp_spec() -> bool {
        true
    }

    open spec fn partial_cmp_spec(&self, other: &Composite) -> Option<Ordering> {
        Some(ordering_of(compare_composites(self@, other@)))
    }
}

impl PartialOrd for Polynomial {
    /// The canonical order on polynomials.
    fn partial_cmp(&self, other: &Polynomial) -> (r: Option<Ordering>) {
        Some(to_ordering(self.compare(other)))
    }
}

impl PartialOrdSpecImpl for Polynomial {
    open spec fn obeys_partial_cmp_spec() -> bool {
        true
    }

    open spec fn partial_cmp_spec(&self, other: &Polynomial) -> Option<Ordering> {
        Some(ordering_of(compare_polynomials(self@, other@)))
    }
}

impl PartialOrd for Monomial {
    /// The canonical order on monomials.
    fn partial_cmp(&self, other: &Monomial) -> (r: Option<Ordering>) {
        Some(to_ordering(self.compare(other)))
    }
}

impl PartialOrdSpecImpl for Monomial {
    open spec fn obeys_partial_cmp_spec() -> bool {
        true
    }

    open spec fn partial_cmp_spec(&self, other: &Monomial) -> Option<Ordering> {
        Some(ordering_of(compare_monomials(self@, other@)))
    }
}

impl PartialEq<i64> for Polynomial {
    /// Whether the polynomial is the constant `other`.
    fn eq(&self, other: &i64) -> (r: bool) {
        self.equals_constant(*other)
    }
}

impl PartialEqSpecImpl<i64> for Polynomial {
    open spec fn obeys_eq_spec() -> bool {
        true
    }

    open spec fn eq_spec(&self, other: &i64) -> bool {
        polynomial_equals_constant(self@, *other as int)
    }
}

impl PartialEq<Polynomial> for i64 {
    /// Whether the polynomial `other` is this constant.
    fn eq(&self, other: &Polynomial) -> (r: bool) {
        other.equals_constant(*self)
    }
}

impl PartialEqSpecImpl<Polynomial> for i64 {
    open spec fn obeys_eq_spec() -> bool {
        true
    }

    open spec fn eq_spec(&self, other: &Polynomial) -> bool {
        polynomial_equals_constant(other@, *self as int)
    }
}

impl PartialEq<i64> for Monomial {
    /// Whether the monomial is the constant `other`.
    fn eq(&self, other: &i64) -> (r: bool) {
        self.equals_constant(*other)
    }
}

impl PartialEqSpecImpl<i64> for Monomial {
    open spec fn obeys_eq_spec() -> bool {
        true
    }

    open spec fn eq_spec(&self, other: &i64) -> bool {
        monomial_equals_constant(self@, *other as int)
    }
}

impl PartialEq<Monomial> for i64 {
    /// Whether the monomial `other` is this constant.
    fn eq(&self, other: &Monomial) -> (r: bool) {
        other.equals_constant(*self)
    }
}

impl PartialEqSpecImpl<Monomial> for i64 {
    open spec fn obeys_eq_spec() -> bool {
        true
    }

    open spec fn eq_spec(&self, other: &Monomial) -> bool {
        monomial_equals_constant(other@, *self as int)
    }
}

} // verus!
