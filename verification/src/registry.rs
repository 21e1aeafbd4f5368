//! A registry that hands out fresh variables.
use vstd::prelude::*;
use std::collections::HashMap;
use crate::evaluation::{evaluate_monomial, evaluate_polynomial, EvalError};
use crate::functions::composite_polynomial;
use crate::model::{CompositeModel, Identifier, MonomialModel};
use crate::monomial::Monomial;
use crate::polynomial::Polynomial;

verus! {

/// Keeps track of the identifiers handed out so far: every identifier
/// below `next` has been used.
pub struct Registry {
    id: Identifier,
}

/// The monomial that is the variable `id`.
pub open spec fn variable_monomial(id: Identifier) -> MonomialModel {
    MonomialModel { coefficient: 1, powers: seq![(CompositeModel::Variable(id), 1nat)] }
}

impl Registry {
    /// The identifier that the next fresh variable gets.
    pub closed spec fn next(&self) -> Identifier {
        self.id
    }

    /// A registry that has handed out no identifier.
    pub fn new() -> (r: Registry)
        ensures
            r.next() == 0,
    {
        Registry { id: 0 }
    }

    /// The monomial that is the variable `id`. The registry stays as it is.
    pub fn specific_monomial_variable(&mut self, id: Identifier) -> (r: Monomial)
        ensures
            r@ == variable_monomial(id),
            final(self).next() == old(self).next(),
    {
        Monomial::variable(id)
    }

    /// The monomial that is a fresh variable: the one with the lowest
    /// identifier not handed out so far. There must be an identifier left.
    pub fn new_monomial_variable(&mut self) -> (r: Monomial)
        requires
            old(self).next() < Identifier::MAX,
        ensures
            r@ == variable_monomial(old(self).next()),
            final(self).next() == old(self).next() + 1,
    {
        let id = self.id;
        self.id = id + 1;
        Monomial::variable(id)
    }

    /// The polynomial that is the variable `id`. The registry stays as it
    /// is.
    pub fn specific_variable(&mut self, id: Identifier) -> (r: Polynomial)
        ensures
            r@ == composite_polynomial(CompositeModel::Variable(id)),
            final(self).next() == old(self).next(),
    {
        crate::functions::variable(id)
    }

    /// The polynomial that is a fresh variable: the one with the lowest
    /// identifier not handed out so far. There must be an identifier left.
    pub fn new_variable(&mut self) -> (r: Polynomial)
        requires
            old(self).next() < Identifier::MAX,
        ensures
            r@ == composite_polynomial(CompositeModel::Variable(old(self).next())),
            final(self).next() == old(self).next() + 1,
    {
        let id = self.id;
        self.id = id + 1;
        crate::functions::variable(id)
    }

    /// Forgets the identifiers handed out.
    pub fn reset(&mut self)
        ensures
            final(self).next() == 0,
    {
        self.id = 0;
    }

    /// The value of a monomial under an assignment, or `None` where a
    /// variable has no value or the evaluation fails otherwise.
    pub fn eval_monomial(&self, monomial: &Monomial, values: &HashMap<Identifier, i64>) -> (r:
        Option<i64>)
        ensures
            match r {
                Some(v) => evaluate_monomial(monomial@, values@) == Ok::<int, EvalError>(v as int),
                None => evaluate_monomial(monomial@, values@).is_err(),
            },
    {
        match monomial.evaluate(values) {
            Ok(v) => Some(v),
            Err(_) => None,
        }
    }

    /// The value of a polynomial under an assignment, or `None` where a
    /// variable has no value or the evaluation fails otherwise.
    pub fn eval(&self, polynomial: &Polynomial, values: &HashMap<Identifier, i64>) -> (r: Option<
        i64,
    >)
        ensures
            match r {
                Some(v) => evaluate_polynomial(polynomial@, values@) == Ok::<int, EvalError>(
                    v as int,
                ),
                None => evaluate_polynomial(polynomial@, values@).is_err(),
            },
    {
        match polynomial.eval(values) {
            Ok(v) => Some(v),
            Err(_) => None,
        }
    }
}

impl Default for Registry {
    /// A registry that has handed out no identifier.
    fn default() -> (r: Registry)
        ensures
            r.next() == 0,
    {
        Registry::new()
    }
}

} // verus!
