//! Composites: variables and the irreducible operations `floor`, `ceil`,
//! `min` and `max`.
use vstd::prelude::*;
use std::rc::Rc;
use std::collections::HashMap;
use crate::evaluation::{
    as_model, combine_operands, evaluate_composite, evaluate_polynomial, quotient_result,
    EvalError,
};
use crate::integer::{ceil_div, ceil_quotient, div_floor, floor_quotient};
use crate::model::{
    compare_composites, compare_ints, compare_polynomials, Comparison, CompositeModel, Identifier,
};
use crate::polynomial::{polynomial_model, Polynomial};

verus! {

/// A variable, or an irreducible operation on two shared polynomials.
/// Composites are compared by value, never by address.
#[derive(Debug, Eq)]
pub enum Composite {
    Variable(Identifier),
    Floor(Rc<Polynomial>, Rc<Polynomial>),
    Ceil(Rc<Polynomial>, Rc<Polynomial>),
    Min(Rc<Polynomial>, Rc<Polynomial>),
    Max(Rc<Polynomial>, Rc<Polynomial>),
}

/// The model of a composite.
pub open spec fn composite_model(c: &Composite) -> CompositeModel
    decreases c,
{
    match c {
        Composite::Variable(id) => CompositeModel::Variable(*id),
        Composite::Floor(l, r) => CompositeModel::Floor(
            polynomial_model(&**l),
            polynomial_model(&**r),
        ),
        Composite::Ceil(l, r) => CompositeModel::Ceil(
            polynomial_model(&**l),
            polynomial_model(&**r),
        ),
        Composite::Min(l, r) => CompositeModel::Min(
            polynomial_model(&**l),
            polynomial_model(&**r),
        ),
        Composite::Max(l, r) => CompositeModel::Max(
            polynomial_model(&**l),
            polynomial_model(&**r),
        ),
    }
}

impl View for Composite {
    type V = CompositeModel;

    open spec fn view(&self) -> CompositeModel {
        composite_model(self)
    }
}

impl Clone for Composite {
    /// A copy that shares the operands.
    fn clone(&self) -> (r: Self)
        ensures
            r@ == self@,
    {
        match self {
            Composite::Variable(id) => Composite::Variable(*id),
            Composite::Floor(l, r) => Composite::Floor(l.clone(), r.clone()),
            Composite::Ceil(l, r) => Composite::Ceil(l.clone(), r.clone()),
            Composite::Min(l, r) => Composite::Min(l.clone(), r.clone()),
            Composite::Max(l, r) => Composite::Max(l.clone(), r.clone()),
        }
    }
}

/// Compares two identifiers in their natural order.
pub fn compare_identifiers(a: Identifier, b: Identifier) -> (r: Comparison)
    ensures
        r == compare_ints(a as int, b as int),
{
    if a < b {
        Comparison::Less
    } else if a == b {
        Comparison::Equal
    } else {
        Comparison::Greater
    }
}

/// Compares two pairs of operands, left operands first.
fn compare_operands(
    parent: &Composite,
    l: &Polynomial,
    r: &Polynomial,
    ol: &Polynomial,
    or: &Polynomial,
) -> (c: Comparison)
    requires
        decreases_to!(parent => l),
        decreases_to!(parent => r),
    ensures
        c == compare_polynomials(l@, ol@).then_with(compare_polynomials(r@, or@)),
    decreases parent, 0nat,
{
    match l.compare(ol) {
        Comparison::Equal => r.compare(or),
        c => c,
    }
}

/// Evaluates two operands, the left one first.
fn evaluate_operands(
    parent: &Composite,
    l: &Polynomial,
    r: &Polynomial,
    values: &HashMap<Identifier, i64>,
) -> (v: Result<(i64, i64), EvalError>)
    requires
        decreases_to!(parent => l),
        decreases_to!(parent => r),
    ensures
        match v {
            Ok((x, y)) => evaluate_polynomial(l@, values@) == Ok::<int, EvalError>(x as int)
                && evaluate_polynomial(r@, values@) == Ok::<int, EvalError>(y as int),
            Err(e) => combine_operands(
                parent@,
                evaluate_polynomial(l@, values@),
                evaluate_polynomial(r@, values@),
            ) == Err::<int, EvalError>(e) && (evaluate_polynomial(l@, values@).is_err()
                || evaluate_polynomial(r@, values@).is_err()),
        },
    decreases parent, 0nat,
{
    let x = match l.eval(values) {
        Ok(x) => x,
        Err(e) => {
            return Err(e);
        },
    };
    let y = match r.eval(values) {
        Ok(y) => y,
        Err(e) => {
            return Err(e);
        },
    };
    Ok((x, y))
}

/// The quotient rounded toward negative infinity.
pub fn floor_of(x: i64, y: i64) -> (r: Result<i64, EvalError>)
    ensures
        as_model(r) == quotient_result(floor_quotient(x as int, y as int), y as int),
{
    if y == 0 {
        Err(EvalError::DivisionByZero)
    } else if x == i64::MIN && y == -1 {
        Err(EvalError::Overflow)
    } else {
        Ok(div_floor(x, y))
    }
}

/// The quotient rounded toward positive infinity.
pub fn ceil_of(x: i64, y: i64) -> (r: Result<i64, EvalError>)
    ensures
        as_model(r) == quotient_result(ceil_quotient(x as int, y as int), y as int),
{
    if y == 0 {
        Err(EvalError::DivisionByZero)
    } else if x == i64::MIN && y == -1 {
        Err(EvalError::Overflow)
    } else {
        Ok(ceil_div(x, y))
    }
}

impl Composite {
    /// Evaluates the composite under an assignment. A variable without a
    /// value fails naming itself; `floor` and `ceil` fail where the right
    /// operand evaluates to zero; a value out of range fails as an overflow.
    pub fn eval(&self, values: &HashMap<Identifier, i64>) -> (r: Result<i64, EvalError>)
        ensures
            as_model(r) == evaluate_composite(self@, values@),
        decreases self, 1nat,
    {
        match self {
            Composite::Variable(id) => match values.get(id) {
                Some(v) => Ok(*v),
                None => Err(EvalError::MissingVariable(*id)),
            },
            Composite::Floor(l, r) => match evaluate_operands(self, l, r, values) {
                Ok((x, y)) => floor_of(x, y),
                Err(e) => Err(e),
            },
            Composite::Ceil(l, r) => match evaluate_operands(self, l, r, values) {
                Ok((x, y)) => ceil_of(x, y),
                Err(e) => Err(e),
            },
            Composite::Min(l, r) => match evaluate_operands(self, l, r, values) {
                Ok((x, y)) => Ok(
                    if x < y {
                        x
                    } else {
                        y
                    },
                ),
                Err(e) => Err(e),
            },
            Composite::Max(l, r) => match evaluate_operands(self, l, r, values) {
                Ok((x, y)) => Ok(
                    if x > y {
                        x
                    } else {
                        y
                    },
                ),
                Err(e) => Err(e),
            },
        }
    }

    /// The rank of the kind of this composite.
    fn kind(&self) -> (r: u8)
        ensures
            r == crate::model::kind_rank(self@),
    {
        match self {
            Composite::Variable(_) => 4,
            Composite::Max(_, _) => 3,
            Composite::Min(_, _) => 2,
            Composite::Ceil(_, _) => 1,
            Composite::Floor(_, _) => 0,
        }
    }

    /// Compares two composites in the canonical order.
    pub fn compare(&self, other: &Composite) -> (r: Comparison)
        ensures
            r == compare_composites(self@, other@),
        decreases self, 1nat,
    {
        match (self, other) {
            (Composite::Variable(x), Composite::Variable(y)) => compare_identifiers(*y, *x),
            (Composite::Floor(l, r), Composite::Floor(ol, or)) => compare_operands(self, l, r, ol, or),
            (Composite::Ceil(l, r), Composite::Ceil(ol, or)) => compare_operands(self, l, r, ol, or),
            (Composite::Min(l, r), Composite::Min(ol, or)) => compare_operands(self, l, r, ol, or),
            (Composite::Max(l, r), Composite::Max(ol, or)) => compare_operands(self, l, r, ol, or),
            _ => {
                let a = self.kind();
                let b = other.kind();
                if a < b {
                    Comparison::Less
                } else if a == b {
                    Comparison::Equal
                } else {
                    Comparison::Greater
                }
            },
        }
    }
}

} // verus!
