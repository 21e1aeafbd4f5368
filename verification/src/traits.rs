//! What composites, monomials and polynomials have in common.
use vstd::prelude::*;
use std::collections::HashMap;
use crate::composite::Composite;
use crate::evaluation::{
    as_model, evaluate_composite, evaluate_monomial, evaluate_polynomial, Assignment, EvalError,
};
use crate::model::Identifier;
use crate::monomial::Monomial;
use crate::polynomial::{polynomial_is_constant, Polynomial};

verus! {

/// An expression that has a value under an assignment of values to its
/// variables.
pub trait Evaluable {
    /// The value under an assignment, or why there is none.
    spec fn evaluation(&self, values: Assignment) -> Result<int, EvalError>;

    /// Evaluates the expression under an assignment.
    fn eval(&self, values: &HashMap<Identifier, i64>) -> (r: Result<i64, EvalError>)
        ensures
            as_model(r) == self.evaluation(values@),
    ;
}

impl Evaluable for Composite {
    open spec fn evaluation(&self, values: Assignment) -> Result<int, EvalError> {
        evaluate_composite(self@, values)
    }

    fn eval(&self, values: &HashMap<Identifier, i64>) -> (r: Result<i64, EvalError>) {
        Composite::eval(self, values)
    }
}

impl Evaluable for Monomial {
    open spec fn evaluation(&self, values: Assignment) -> Result<int, EvalError> {
        evaluate_monomial(self@, values)
    }

    fn eval(&self, values: &HashMap<Identifier, i64>) -> (r: Result<i64, EvalError>) {
        self.evaluate(values)
    }
}

impl Evaluable for Polynomial {
    open spec fn evaluation(&self, values: Assignment) -> Result<int, EvalError> {
        evaluate_polynomial(self@, values)
    }

    fn eval(&self, values: &HashMap<Identifier, i64>) -> (r: Result<i64, EvalError>) {
        Polynomial::eval(self, values)
    }
}

/// An expression that may be a constant.
pub trait IsConstant {
    /// Whether the expression depends on no variable.
    spec fn constant(&self) -> bool;

    /// Whether the expression depends on no variable.
    fn is_constant(&self) -> (r: bool)
        ensures
            r == self.constant(),
    ;
}

impl IsConstant for Monomial {
    open spec fn constant(&self) -> bool {
        self@.powers.len() == 0
    }

    fn is_constant(&self) -> (r: bool) {
        Monomial::is_constant(self)
    }
}

impl IsConstant for Polynomial {
    open spec fn constant(&self) -> bool {
        polynomial_is_constant(self@)
    }

    fn is_constant(&self) -> (r: bool) {
        Polynomial::is_constant(self)
    }
}

} // verus!
