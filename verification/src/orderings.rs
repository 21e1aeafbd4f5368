//! The operators `<`, `>` and their kin between a polynomial or a monomial
//! and a constant.
use vstd::prelude::*;
use vstd::std_specs::cmp::PartialOrdSpecImpl;
use std::cmp::Ordering;
use crate::comparisons::{
    compare_monomial_with_constant, compare_polynomial_with_constant, ordering_of, to_ordering,
};
use crate::model::Comparison;
use crate::monomial::Monomial;
use crate::polynomial::Polynomial;

verus! {

/// The constant `c` as an integer.
pub open spec fn value_of(c: &i64) -> int {
    *c as int
}

/// Turns a comparison round.
pub fn reverse(c: Comparison) -> (r: Comparison)
    ensures
        r == c.reversed(),
{
    match c {
        Comparison::Less => Comparison::Greater,
        Comparison::Equal => Comparison::Equal,
        Comparison::Greater => Comparison::Less,
    }
}

impl PartialOrd<i64> for Polynomial {
    /// How the polynomial stands to a constant.
    fn partial_cmp(&self, other: &i64) -> (r: Option<Ordering>) {
        Some(to_ordering(self.compare_with_constant(*other)))
    }
}

impl PartialOrdSpecImpl<i64> for Polynomial {
    open spec fn obeys_partial_cmp_spec() -> bool {
        true
    }

    open spec fn partial_cmp_spec(&self, other: &i64) -> Option<Ordering> {
        Some(ordering_of(compare_polynomial_with_constant(self@, value_of(other))))
    }
}

impl PartialOrd<Polynomial> for i64 {
    /// How a constant stands to the polynomial `other`.
    fn partial_cmp(&self, other: &Polynomial) -> (r: Option<Ordering>) {
        Some(to_ordering(reverse(other.compare_with_constant(*self))))
    }
}

impl PartialOrdSpecImpl<Polynomial> for i64 {
    open spec fn obeys_partial_cmp_spec() -> bool {
        true
    }

    open spec fn partial_cmp_spec(&self, other: &Polynomial) -> Option<Ordering> {
        Some(ordering_of(compare_polynomial_with_constant(other@, value_of(self)).reversed()))
    }
}

impl PartialOrd<i64> for Monomial {
    /// How the monomial stands to a constant.
    fn partial_cmp(&self, other: &i64) -> (r: Option<Ordering>) {
        Some(to_ordering(self.compare_with_constant(*other)))
    }
}

impl PartialOrdSpecImpl<i64> for Monomial {
    open spec fn obeys_partial_cmp_spec() -> bool {
        true
    }

    open spec fn partial_cmp_spec(&self, other: &i64) -> Option<Ordering> {
        Some(ordering_of(compare_monomial_with_constant(self@, value_of(other))))
    }
}

impl PartialOrd<Monomial> for i64 {
    /// How a constant stands to the monomial `other`.
    fn partial_cmp(&self, other: &Monomial) -> (r: Option<Ordering>) {
        Some(to_ordering(reverse(other.compare_with_constant(*self))))
    }
}

impl PartialOrdSpecImpl<Monomial> for i64 {
    open spec fn obeys_partial_cmp_spec() -> bool {
        true
    }

    open spec fn partial_cmp_spec(&self, other: &Monomial) -> Option<Ordering> {
        Some(ordering_of(compare_monomial_with_constant(other@, value_of(self)).reversed()))
    }
}

} // verus!
