//! Evaluation of composites, monomials and polynomials under an assignment
//! of values to variables.
use vstd::prelude::*;
use vstd::arithmetic::power::pow;
use crate::integer::{ceil_quotient, fits_i64, floor_quotient};
use crate::model::{CompositeModel, Identifier, MonomialModel, PolynomialModel};

verus! {

/// Why an evaluation failed.
#[derive(Clone, Copy, Debug, PartialEq, Eq, Structural)]
pub enum EvalError {
    /// The assignment holds no value for this variable.
    MissingVariable(Identifier),
    /// The right operand of a `floor` or `ceil` evaluated to zero.
    DivisionByZero,
    /// A value left the range of the coefficient type.
    Overflow,
}

/// An assignment of values to variables.
pub type Assignment = Map<Identifier, i64>;

/// An integer as the result of a step, where it is in range.
pub open spec fn in_range(x: int) -> Result<int, EvalError> {
    if fits_i64(x) {
        Ok(x)
    } else {
        Err(EvalError::Overflow)
    }
}

/// A quotient as the result of a step: a failure where the divisor is
/// zero, else the quotient where it is in range.
pub open spec fn quotient_result(quotient: int, divisor: int) -> Result<int, EvalError> {
    if divisor == 0 {
        Err(EvalError::DivisionByZero)
    } else {
        in_range(quotient)
    }
}

/// The value of an irreducible operation on the values of its operands.
pub open spec fn apply_operation(c: CompositeModel, x: int, y: int) -> Result<int, EvalError> {
    match c {
        CompositeModel::Variable(_) => Ok(x),
        CompositeModel::Floor(_, _) => quotient_result(floor_quotient(x, y), y),
        CompositeModel::Ceil(_, _) => quotient_result(ceil_quotient(x, y), y),
        CompositeModel::Min(_, _) => Ok(
            if x < y {
                x
            } else {
                y
            },
        ),
        CompositeModel::Max(_, _) => Ok(
            if x > y {
                x
            } else {
                y
            },
        ),
    }
}

/// The value of an operation from what its operands evaluated to: a
/// failure of the left operand comes first, then one of the right operand,
/// then the operation is applied.
pub open spec fn combine_operands(
    c: CompositeModel,
    left: Result<int, EvalError>,
    right: Result<int, EvalError>,
) -> Result<int, EvalError> {
    match left {
        Err(e) => Err(e),
        Ok(x) => match right {
            Err(e) => Err(e),
            Ok(y) => apply_operation(c, x, y),
        },
    }
}

/// The value of a composite: a variable has the value that the assignment
/// gives it; an operation has the value of its kind on the values of its
/// operands.
pub open spec fn evaluate_composite(c: CompositeModel, values: Assignment) -> Result<int, EvalError>
    decreases c, 0nat,
{
    match c {
        CompositeModel::Variable(id) => if values.contains_key(id) {
            Ok(values[id] as int)
        } else {
            Err(EvalError::MissingVariable(id))
        },
        CompositeModel::Floor(l, r) => combine_operands(
            c,
            evaluate_polynomial(l, values),
            evaluate_polynomial(r, values),
        ),
        CompositeModel::Ceil(l, r) => combine_operands(
            c,
            evaluate_polynomial(l, values),
            evaluate_polynomial(r, values),
        ),
        CompositeModel::Min(l, r) => combine_operands(
            c,
            evaluate_polynomial(l, values),
            evaluate_polynomial(r, values),
        ),
        CompositeModel::Max(l, r) => combine_operands(
            c,
            evaluate_polynomial(l, values),
            evaluate_polynomial(r, values),
        ),
    }
}

/// The value `v` multiplied by the value `x` of a factor to the power `e`.
pub open spec fn multiply_by_power(v: int, x: int, e: nat) -> Result<int, EvalError> {
    match in_range(pow(x, e)) {
        Err(e) => Err(e),
        Ok(p) => in_range(v * p),
    }
}

/// The coefficient of a monomial multiplied by the values of its first `n`
/// factors, one after the other.
pub open spec fn evaluate_factors_upto(m: MonomialModel, values: Assignment, n: int) -> Result<
    int,
    EvalError,
>
    decreases m, n,
{
    if n <= 0 || n > m.powers.len() {
        Ok(m.coefficient)
    } else {
        match evaluate_factors_upto(m, values, n - 1) {
            Err(e) => Err(e),
            Ok(v) => match evaluate_composite(m.powers[n - 1].0, values) {
                Err(e) => Err(e),
                Ok(x) => multiply_by_power(v, x, m.powers[n - 1].1),
            },
        }
    }
}

/// The value of a monomial: its coefficient times the value of each factor
/// raised to its power.
pub open spec fn evaluate_monomial(m: MonomialModel, values: Assignment) -> Result<int, EvalError>
    decreases m, m.powers.len() + 1,
{
    evaluate_factors_upto(m, values, m.powers.len() as int)
}

/// The sum of the values of the first `n` terms, taken one after the other.
pub open spec fn evaluate_terms_upto(p: PolynomialModel, values: Assignment, n: int) -> Result<
    int,
    EvalError,
>
    decreases p, n,
{
    if n <= 0 || n > p.monomials.len() {
        Ok(0)
    } else {
        match evaluate_terms_upto(p, values, n - 1) {
            Err(e) => Err(e),
            Ok(acc) => match evaluate_monomial(p.monomials[n - 1], values) {
                Err(e) => Err(e),
                Ok(v) => in_range(acc + v),
            },
        }
    }
}

/// The value of a polynomial: the sum of the values of its terms. The first
/// failure met ends the evaluation.
pub open spec fn evaluate_polynomial(p: PolynomialModel, values: Assignment) -> Result<
    int,
    EvalError,
>
    decreases p, p.monomials.len() + 1,
{
    evaluate_terms_upto(p, values, p.monomials.len() as int)
}

/// What an evaluation returns, as it is stated of the models.
pub open spec fn as_model(r: Result<i64, EvalError>) -> Result<int, EvalError> {
    match r {
        Ok(v) => Ok(v as int),
        Err(e) => Err(e),
    }
}

} // verus!
