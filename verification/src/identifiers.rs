//! The variables that a composite, a monomial or a polynomial depends on.
use vstd::prelude::*;
use std::collections::HashSet;
use crate::composite::Composite;
use crate::model::{CompositeModel, Identifier, MonomialModel, PolynomialModel};
use crate::monomial::Monomial;
use crate::polynomial::Polynomial;

verus! {

/// The variables of a composite: itself where it is a variable, else those
/// of its operands.
pub open spec fn composite_identifiers(c: CompositeModel) -> Set<Identifier>
    decreases c, 0nat,
{
    match c {
        CompositeModel::Variable(id) => set![id],
        CompositeModel::Floor(l, r) => polynomial_identifiers(l).union(polynomial_identifiers(r)),
        CompositeModel::Ceil(l, r) => polynomial_identifiers(l).union(polynomial_identifiers(r)),
        CompositeModel::Min(l, r) => polynomial_identifiers(l).union(polynomial_identifiers(r)),
        CompositeModel::Max(l, r) => polynomial_identifiers(l).union(polynomial_identifiers(r)),
    }
}

/// The variables of the first `n` factors of a monomial.
pub open spec fn factors_identifiers_upto(m: MonomialModel, n: int) -> Set<Identifier>
    decreases m, n,
{
    if n <= 0 || n > m.powers.len() {
        Set::empty()
    } else {
        factors_identifiers_upto(m, n - 1).union(composite_identifiers(m.powers[n - 1].0))
    }
}

/// The variables of a monomial: those of its factors.
pub open spec fn monomial_identifiers(m: MonomialModel) -> Set<Identifier>
    decreases m, m.powers.len() + 1,
{
    factors_identifiers_upto(m, m.powers.len() as int)
}

/// The variables of the first `n` terms of a polynomial.
pub open spec fn terms_identifiers_upto(p: PolynomialModel, n: int) -> Set<Identifier>
    decreases p, n,
{
    if n <= 0 || n > p.monomials.len() {
        Set::empty()
    } else {
        terms_identifiers_upto(p, n - 1).union(monomial_identifiers(p.monomials[n - 1]))
    }
}

/// The variables of a polynomial: those of its terms, and so every variable
/// that can be reached through the operands of its composites.
pub open spec fn polynomial_identifiers(p: PolynomialModel) -> Set<Identifier>
    decreases p, p.monomials.len() + 1,
{
    terms_identifiers_upto(p, p.monomials.len() as int)
}

/// Adds the variables of two operands to a set.
fn operands_identifiers(
    parent: &Composite,
    l: &Polynomial,
    r: &Polynomial,
    unique: &mut HashSet<Identifier>,
)
    requires
        decreases_to!(parent => l),
        decreases_to!(parent => r),
    ensures
        final(unique)@ == old(unique)@.union(
            polynomial_identifiers(l@).union(polynomial_identifiers(r@)),
        ),
    decreases parent, 0nat,
{
    l.unique_identifiers(unique);
    r.unique_identifiers(unique);
    assert(unique@ =~= old(unique)@.union(
        polynomial_identifiers(l@).union(polynomial_identifiers(r@)),
    ));
}

impl Composite {
    /// Adds to the set every variable that the composite depends on.
    pub fn unique_identifiers(&self, unique: &mut HashSet<Identifier>)
        ensures
            final(unique)@ == old(unique)@.union(composite_identifiers(self@)),
        decreases self, 1nat,
    {
        match self {
            Composite::Variable(id) => {
                unique.insert(*id);
                assert(unique@ =~= old(unique)@.union(set![*id]));
            },
            Composite::Floor(l, r) => operands_identifiers(self, l, r, unique),
            Composite::Ceil(l, r) => operands_identifiers(self, l, r, unique),
            Composite::Min(l, r) => operands_identifiers(self, l, r, unique),
            Composite::Max(l, r) => operands_identifiers(self, l, r, unique),
        }
    }
}

impl Monomial {
    /// Adds to the set every variable that the monomial depends on.
    pub fn unique_identifiers(&self, unique: &mut HashSet<Identifier>)
        ensures
            final(unique)@ == old(unique)@.union(monomial_identifiers(self@)),
        decreases self, 0nat,
    {
        let mut k: usize = 0;
        assert(unique@ =~= old(unique)@.union(Set::empty()));
        while k < self.powers.len()
            invariant
                k <= self.powers.len(),
                unique@ == old(unique)@.union(factors_identifiers_upto(self@, k as int)),
            decreases self.powers.len() - k,
        {
            assert(self@.powers[k as int].0 == self.powers@[k as int].0@);
            let ghost before = unique@;
            self.powers[k].0.unique_identifiers(unique);
            assert(unique@ =~= old(unique)@.union(factors_identifiers_upto(self@, k + 1)));
            k += 1;
        }
    }
}

impl Polynomial {
    /// Adds to the set every variable that the polynomial depends on,
    /// through the operands of its composites too.
    pub fn unique_identifiers(&self, unique: &mut HashSet<Identifier>)
        ensures
            final(unique)@ == old(unique)@.union(polynomial_identifiers(self@)),
        decreases self, 0nat,
    {
        let mut k: usize = 0;
        assert(unique@ =~= old(unique)@.union(Set::empty()));
        while k < self.monomials.len()
            invariant
                k <= self.monomials.len(),
                unique@ == old(unique)@.union(terms_identifiers_upto(self@, k as int)),
            decreases self.monomials.len() - k,
        {
            assert(self@.monomials[k as int] == self.monomials@[k as int]@);
            self.monomials[k].unique_identifiers(unique);
            assert(unique@ =~= old(unique)@.union(terms_identifiers_upto(self@, k + 1)));
            k += 1;
        }
    }
}

} // verus!
