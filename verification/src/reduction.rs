//! Partial evaluation: folding the variables that an assignment knows into
//! the coefficients, and the operations whose operands become constants
//! into values.
use vstd::prelude::*;
use std::collections::HashMap;
use std::rc::Rc;
use crate::algebra::{
    lemma_combine_terms_wf, monomial_polynomial, polynomial_sum, single_term, terms_fit,
    zero_polynomial,
};
use crate::meaning::{extends, lemma_reduce_polynomial_value, polynomial_value, Valuation};
use crate::model::{composite_wf, monomial_wf, polynomial_wf};
use crate::solutions::agree_under;
use crate::shape::lemma_multiply_shapes_wf;
use crate::composite::Composite;
use crate::evaluation::{apply_operation, multiply_by_power, Assignment, EvalError};
use crate::model::{CompositeModel, Identifier, MonomialModel, PolynomialModel};
use crate::monomial::{monomial_fits, monomial_product, times_power, Monomial};
use crate::polynomial::{
    constant_value, lemma_terms_model_fits, polynomial_is_constant, Polynomial,
};

verus! {

/// What a factor becomes under an assignment: a value, or a composite that
/// still depends on variables.
pub enum Reduced {
    Value(int),
    Factor(CompositeModel),
}

/// What an operation becomes when its operands have been reduced: its value
/// where both are constants, else the operation on the reduced operands.
pub open spec fn rebuild(kind: CompositeModel, l: PolynomialModel, r: PolynomialModel) -> Result<
    Reduced,
    EvalError,
> {
    if polynomial_is_constant(l) && polynomial_is_constant(r) {
        match apply_operation(kind, constant_value(l), constant_value(r)) {
            Ok(v) => Ok(Reduced::Value(v)),
            Err(e) => Err(e),
        }
    } else {
        Ok(
            Reduced::Factor(
                match kind {
                    CompositeModel::Variable(id) => kind,
                    CompositeModel::Floor(_, _) => CompositeModel::Floor(l, r),
                    CompositeModel::Ceil(_, _) => CompositeModel::Ceil(l, r),
                    CompositeModel::Min(_, _) => CompositeModel::Min(l, r),
                    CompositeModel::Max(_, _) => CompositeModel::Max(l, r),
                },
            ),
        )
    }
}

/// What an operation becomes from what its operands were reduced to: a
/// failure of the left operand comes first, then one of the right operand.
pub open spec fn rebuild_from(
    kind: CompositeModel,
    left: Result<PolynomialModel, EvalError>,
    right: Result<PolynomialModel, EvalError>,
) -> Result<Reduced, EvalError> {
    match left {
        Err(e) => Err(e),
        Ok(l) => match right {
            Err(e) => Err(e),
            Ok(r) => rebuild(kind, l, r),
        },
    }
}

/// A composite under an assignment: a variable becomes its value where the
/// assignment has one and stays otherwise; an operation has its operands
/// reduced and is rebuilt.
pub open spec fn reduce_composite(c: CompositeModel, values: Assignment) -> Result<
    Reduced,
    EvalError,
>
    decreases c, 0nat,
{
    match c {
        CompositeModel::Variable(id) => if values.contains_key(id) {
            Ok(Reduced::Value(values[id] as int))
        } else {
            Ok(Reduced::Factor(c))
        },
        CompositeModel::Floor(l, r) => rebuild_from(
            c,
            reduce_polynomial(l, values),
            reduce_polynomial(r, values),
        ),
        CompositeModel::Ceil(l, r) => rebuild_from(
            c,
            reduce_polynomial(l, values),
            reduce_polynomial(r, values),
        ),
        CompositeModel::Min(l, r) => rebuild_from(
            c,
            reduce_polynomial(l, values),
            reduce_polynomial(r, values),
        ),
        CompositeModel::Max(l, r) => rebuild_from(
            c,
            reduce_polynomial(l, values),
            reduce_polynomial(r, values),
        ),
    }
}

/// A reduced factor to the power `e` taken into a monomial: a value is
/// raised to the power and multiplied into the coefficient; a composite is
/// multiplied in as a factor.
pub open spec fn absorb(acc: MonomialModel, f: Reduced, e: nat) -> Result<
    MonomialModel,
    EvalError,
> {
    match f {
        Reduced::Value(x) => match multiply_by_power(acc.coefficient, x, e) {
            Ok(c) => Ok(MonomialModel { coefficient: c, powers: acc.powers }),
            Err(err) => Err(err),
        },
        Reduced::Factor(c) => {
            let product = monomial_product(
                acc,
                MonomialModel { coefficient: 1, powers: seq![(c, e)] },
            );
            if monomial_fits(product) {
                Ok(product)
            } else {
                Err(EvalError::Overflow)
            }
        },
    }
}

/// The coefficient of a monomial with its first `n` factors reduced and
/// taken in, one after the other.
pub open spec fn reduce_factors_upto(m: MonomialModel, values: Assignment, n: int) -> Result<
    MonomialModel,
    EvalError,
>
    decreases m, n,
{
    if n <= 0 || n > m.powers.len() {
        Ok(MonomialModel { coefficient: m.coefficient, powers: Seq::empty() })
    } else {
        match reduce_factors_upto(m, values, n - 1) {
            Err(e) => Err(e),
            Ok(acc) => match reduce_composite(m.powers[n - 1].0, values) {
                Err(e) => Err(e),
                Ok(f) => absorb(acc, f, m.powers[n - 1].1),
            },
        }
    }
}

/// A monomial under an assignment: every variable with a value is folded
/// into the coefficient, and so is every operation whose reduced operands
/// are constants. Fails where such an operation divides by zero, or a
/// coefficient or power leaves the machine's range.
pub open spec fn reduce_monomial_model(m: MonomialModel, values: Assignment) -> Result<
    MonomialModel,
    EvalError,
>
    decreases m, m.powers.len() + 1,
{
    reduce_factors_upto(m, values, m.powers.len() as int)
}

/// The sum of the first `n` terms reduced, taken one after the other.
pub open spec fn reduce_terms_upto(p: PolynomialModel, values: Assignment, n: int) -> Result<
    PolynomialModel,
    EvalError,
>
    decreases p, n,
{
    if n <= 0 || n > p.monomials.len() {
        Ok(zero_polynomial())
    } else {
        match reduce_terms_upto(p, values, n - 1) {
            Err(e) => Err(e),
            Ok(acc) => match reduce_monomial_model(p.monomials[n - 1], values) {
                Err(e) => Err(e),
                Ok(m) => {
                    let sum = polynomial_sum(acc, monomial_polynomial(m));
                    if terms_fit(sum.monomials) {
                        Ok(sum)
                    } else {
                        Err(EvalError::Overflow)
                    }
                },
            },
        }
    }
}

/// A polynomial under an assignment: the sum of its reduced terms.
pub open spec fn reduce_polynomial(p: PolynomialModel, values: Assignment) -> Result<
    PolynomialModel,
    EvalError,
>
    decreases p, p.monomials.len() + 1,
{
    reduce_terms_upto(p, values, p.monomials.len() as int)
}

/// What a reduction of a polynomial returns, as it is stated of the models.
pub open spec fn polynomial_result(r: Result<Polynomial, EvalError>) -> Result<
    PolynomialModel,
    EvalError,
> {
    match r {
        Ok(p) => Ok(p@),
        Err(e) => Err(e),
    }
}

/// What a reduction of a monomial returns, as it is stated of the models.
pub open spec fn monomial_result(r: Result<Monomial, EvalError>) -> Result<
    MonomialModel,
    EvalError,
> {
    match r {
        Ok(m) => Ok(m@),
        Err(e) => Err(e),
    }
}

/// A factor as it comes out of a reduction.
pub enum ReducedFactor {
    Value(i64),
    Factor(Composite),
}

/// What a reduction of a composite returns, as it is stated of the models.
pub open spec fn factor_result(r: Result<ReducedFactor, EvalError>) -> Result<Reduced, EvalError> {
    match r {
        Ok(ReducedFactor::Value(v)) => Ok(Reduced::Value(v as int)),
        Ok(ReducedFactor::Factor(c)) => Ok(Reduced::Factor(c@)),
        Err(e) => Err(e),
    }
}

/// A failure among the first `k` factors is the failure of the whole.
pub proof fn lemma_reduce_factors_failure(m: MonomialModel, values: Assignment, k: int, n: int)
    requires
        0 <= k <= n <= m.powers.len(),
        reduce_factors_upto(m, values, k).is_err(),
    ensures
        reduce_factors_upto(m, values, n) == reduce_factors_upto(m, values, k),
    decreases n - k,
{
    if k < n {
        lemma_reduce_factors_failure(m, values, k, n - 1);
    }
}

/// A failure among the first `k` terms is the failure of the whole.
pub proof fn lemma_reduce_terms_failure(p: PolynomialModel, values: Assignment, k: int, n: int)
    requires
        0 <= k <= n <= p.monomials.len(),
        reduce_terms_upto(p, values, k).is_err(),
    ensures
        reduce_terms_upto(p, values, n) == reduce_terms_upto(p, values, k),
    decreases n - k,
{
    if k < n {
        lemma_reduce_terms_failure(p, values, k, n - 1);
    }
}

/// Reducing a canonical composite gives a value or a canonical composite.
pub proof fn lemma_reduce_composite_wf(c: CompositeModel, values: Assignment)
    requires
        composite_wf(c),
    ensures
        match reduce_composite(c, values) {
            Ok(Reduced::Factor(f)) => composite_wf(f),
            _ => true,
        },
    decreases c, 0nat,
{
    match c {
        CompositeModel::Variable(_) => {},
        CompositeModel::Floor(l, r) => {
            lemma_reduce_polynomial_wf(l, values);
            lemma_reduce_polynomial_wf(r, values);
        },
        CompositeModel::Ceil(l, r) => {
            lemma_reduce_polynomial_wf(l, values);
            lemma_reduce_polynomial_wf(r, values);
        },
        CompositeModel::Min(l, r) => {
            lemma_reduce_polynomial_wf(l, values);
            lemma_reduce_polynomial_wf(r, values);
        },
        CompositeModel::Max(l, r) => {
            lemma_reduce_polynomial_wf(l, values);
            lemma_reduce_polynomial_wf(r, values);
        },
    }
}

/// Reducing the factors of a canonical monomial gives a canonical monomial.
pub proof fn lemma_reduce_factors_wf(m: MonomialModel, values: Assignment, n: int)
    requires
        monomial_wf(m),
    ensures
        match reduce_factors_upto(m, values, n) {
            Ok(r) => monomial_wf(r),
            Err(_) => true,
        },
    decreases m, n,
{
    if 0 < n <= m.powers.len() {
        lemma_reduce_factors_wf(m, values, n - 1);
        match reduce_factors_upto(m, values, n - 1) {
            Err(_) => {},
            Ok(acc) => {
                lemma_reduce_composite_wf(m.powers[n - 1].0, values);
                match reduce_composite(m.powers[n - 1].0, values) {
                    Ok(Reduced::Factor(f)) => {
                        let factor = seq![(f, m.powers[n - 1].1)];
                        lemma_multiply_shapes_wf(acc.powers, factor, 0, 0);
                    },
                    _ => {},
                }
            },
        }
    }
}

/// Reducing the terms of a canonical polynomial gives a canonical
/// polynomial.
pub proof fn lemma_reduce_terms_wf(p: PolynomialModel, values: Assignment, n: int)
    requires
        polynomial_wf(p),
    ensures
        match reduce_terms_upto(p, values, n) {
            Ok(r) => polynomial_wf(r),
            Err(_) => true,
        },
    decreases p, n,
{
    if 0 < n <= p.monomials.len() {
        lemma_reduce_terms_wf(p, values, n - 1);
        match reduce_terms_upto(p, values, n - 1) {
            Err(_) => {},
            Ok(acc) => {
                lemma_reduce_factors_wf(
                    p.monomials[n - 1],
                    values,
                    p.monomials[n - 1].powers.len() as int,
                );
                match reduce_monomial_model(p.monomials[n - 1], values) {
                    Err(_) => {},
                    Ok(m) => {
                        lemma_combine_terms_wf(acc.monomials, single_term(m), 0, 0, false);
                    },
                }
            },
        }
    }
}

/// Reducing a canonical polynomial gives a canonical polynomial.
pub proof fn lemma_reduce_polynomial_wf(p: PolynomialModel, values: Assignment)
    requires
        polynomial_wf(p),
    ensures
        match reduce_polynomial(p, values) {
            Ok(r) => polynomial_wf(r),
            Err(_) => true,
        },
    decreases p, p.monomials.len() + 1,
{
    lemma_reduce_terms_wf(p, values, p.monomials.len() as int);
}

/// Reduces two operands, the left one first.
fn reduce_operands(
    parent: &Composite,
    l: &Polynomial,
    r: &Polynomial,
    values: &HashMap<Identifier, i64>,
) -> (v: Result<(Polynomial, Polynomial), EvalError>)
    requires
        decreases_to!(parent => l),
        decreases_to!(parent => r),
    ensures
        match v {
            Ok((x, y)) => reduce_polynomial(l@, values@) == Ok::<PolynomialModel, EvalError>(x@)
                && reduce_polynomial(r@, values@) == Ok::<PolynomialModel, EvalError>(y@),
            Err(e) => rebuild_from(
                parent@,
                reduce_polynomial(l@, values@),
                reduce_polynomial(r@, values@),
            ) == Err::<Reduced, EvalError>(e),
        },
    decreases parent, 0nat,
{
    let x = match reduce(l, values) {
        Ok(x) => x,
        Err(e) => {
            return Err(e);
        },
    };
    let y = match reduce(r, values) {
        Ok(y) => y,
        Err(e) => {
            return Err(e);
        },
    };
    Ok((x, y))
}

/// Reduces a composite: a variable with a value becomes that value; an
/// operation whose reduced operands are constants becomes its value; any
/// other composite is rebuilt on its reduced operands.
pub fn reduce_factor(c: &Composite, values: &HashMap<Identifier, i64>) -> (r: Result<
    ReducedFactor,
    EvalError,
>)
    ensures
        factor_result(r) == reduce_composite(c@, values@),
    decreases c, 1nat,
{
    let (l, r) = match c {
        Composite::Variable(id) => {
            return match values.get(id) {
                Some(v) => Ok(ReducedFactor::Value(*v)),
                None => Ok(ReducedFactor::Factor(Composite::Variable(*id))),
            };
        },
        Composite::Floor(l, r) => (l, r),
        Composite::Ceil(l, r) => (l, r),
        Composite::Min(l, r) => (l, r),
        Composite::Max(l, r) => (l, r),
    };
    let (x, y) = match reduce_operands(c, l, r, values) {
        Ok(pair) => pair,
        Err(e) => {
            return Err(e);
        },
    };
    if x.is_constant() && y.is_constant() {
        let a = x.constant_value();
        let b = y.constant_value();
        let value = match c {
            Composite::Variable(_) => Ok(a),
            Composite::Floor(_, _) => crate::composite::floor_of(a, b),
            Composite::Ceil(_, _) => crate::composite::ceil_of(a, b),
            Composite::Min(_, _) => Ok(
                if a < b {
                    a
                } else {
                    b
                },
            ),
            Composite::Max(_, _) => Ok(
                if a > b {
                    a
                } else {
                    b
                },
            ),
        };
        match value {
            Ok(v) => Ok(ReducedFactor::Value(v)),
            Err(e) => Err(e),
        }
    } else {
        let x = Rc::new(x);
        let y = Rc::new(y);
        Ok(
            ReducedFactor::Factor(
                match c {
                    Composite::Variable(id) => Composite::Variable(*id),
                    Composite::Floor(_, _) => Composite::Floor(x, y),
                    Composite::Ceil(_, _) => Composite::Ceil(x, y),
                    Composite::Min(_, _) => Composite::Min(x, y),
                    Composite::Max(_, _) => Composite::Max(x, y),
                },
            ),
        )
    }
}

/// Takes a reduced factor to the power `e` into a monomial.
fn absorb_factor(acc: Monomial, f: ReducedFactor, e: u8) -> (r: Result<Monomial, EvalError>)
    ensures
        monomial_result(r) == absorb(acc@, factor_result(Ok(f)).unwrap(), e as nat),
{
    match f {
        ReducedFactor::Value(x) => match times_power(acc.coefficient, x, e) {
            Ok(c) => Ok(Monomial { coefficient: c, powers: acc.powers }),
            Err(err) => Err(err),
        },
        ReducedFactor::Factor(c) => {
            let ghost model = c@;
            let mut powers: Vec<(Composite, u8)> = Vec::new();
            powers.push((c, e));
            let factor = Monomial { coefficient: 1, powers };
            assert(factor@.powers =~= seq![(model, e as nat)]);
            match acc.checked_mul(&factor) {
                Some(m) => Ok(m),
                None => Err(EvalError::Overflow),
            }
        },
    }
}

/// Reduces a monomial under an assignment: every variable with a value is
/// folded into the coefficient, and so is every operation whose reduced
/// operands are constants. Fails where such an operation divides by zero,
/// or a coefficient or power leaves the machine's range.
pub fn reduce_monomial(monomial: &Monomial, values: &HashMap<Identifier, i64>) -> (r: Result<
    Monomial,
    EvalError,
>)
    ensures
        monomial_result(r) == reduce_monomial_model(monomial@, values@),
        monomial_wf(monomial@) ==> match r {
            Ok(m) => monomial_wf(m@),
            Err(_) => true,
        },
    decreases monomial, 0nat,
{
    proof {
        if monomial_wf(monomial@) {
            lemma_reduce_factors_wf(monomial@, values@, monomial@.powers.len() as int);
        }
    }
    reduce_factors(monomial, values)
}

/// Reduces the factors of a monomial one after the other.
fn reduce_factors(monomial: &Monomial, values: &HashMap<Identifier, i64>) -> (r: Result<
    Monomial,
    EvalError,
>)
    ensures
        monomial_result(r) == reduce_monomial_model(monomial@, values@),
    decreases monomial, 0nat,
{
    let mut acc = Monomial::constant(monomial.coefficient);
    let mut k: usize = 0;
    while k < monomial.powers.len()
        invariant
            k <= monomial.powers.len(),
            reduce_factors_upto(monomial@, values@, k as int) == Ok::<MonomialModel, EvalError>(
                acc@,
            ),
        decreases monomial.powers.len() - k,
    {
        assert(monomial@.powers[k as int] == (
            monomial.powers@[k as int].0@,
            monomial.powers@[k as int].1 as nat,
        ));
        let f = match reduce_factor(&monomial.powers[k].0, values) {
            Ok(f) => f,
            Err(e) => {
                proof {
                    lemma_reduce_factors_failure(
                        monomial@,
                        values@,
                        k + 1,
                        monomial@.powers.len() as int,
                    );
                }
                return Err(e);
            },
        };
        acc = match absorb_factor(acc, f, monomial.powers[k].1) {
            Ok(m) => m,
            Err(e) => {
                proof {
                    lemma_reduce_factors_failure(
                        monomial@,
                        values@,
                        k + 1,
                        monomial@.powers.len() as int,
                    );
                }
                return Err(e);
            },
        };
        k += 1;
    }
    Ok(acc)
}

/// Reduces a polynomial under an assignment, which may cover only some of
/// its variables: the sum of its reduced terms. The result stands for what
/// the polynomial stands for, whatever the variables without a value stand
/// for.
pub fn reduce(polynomial: &Polynomial, values: &HashMap<Identifier, i64>) -> (r: Result<
    Polynomial,
    EvalError,
>)
    ensures
        polynomial_result(r) == reduce_polynomial(polynomial@, values@),
        polynomial_wf(polynomial@) ==> match r {
            Ok(p) => polynomial_wf(p@),
            Err(_) => true,
        },
        match r {
            Ok(p) => agree_under(p@, polynomial@, values@),
            Err(_) => true,
        },
    decreases polynomial, 1nat,
{
    proof {
        if polynomial_wf(polynomial@) {
            lemma_reduce_polynomial_wf(polynomial@, values@);
        }
        if reduce_polynomial(polynomial@, values@).is_ok() {
            assert forall|v: Valuation| #[trigger] extends(v, values@) implies polynomial_value(
                reduce_polynomial(polynomial@, values@).unwrap(),
                v,
            ) == polynomial_value(polynomial@, v) by {
                lemma_reduce_polynomial_value(polynomial@, values@, v);
            }
        }
    }
    reduce_terms(polynomial, values)
}

/// Reduces the terms of a polynomial one after the other.
fn reduce_terms(polynomial: &Polynomial, values: &HashMap<Identifier, i64>) -> (r: Result<
    Polynomial,
    EvalError,
>)
    ensures
        polynomial_result(r) == reduce_polynomial(polynomial@, values@),
    decreases polynomial, 0nat,
{
    let mut acc = Polynomial::zero();
    let mut k: usize = 0;
    while k < polynomial.monomials.len()
        invariant
            k <= polynomial.monomials.len(),
            reduce_terms_upto(polynomial@, values@, k as int) == Ok::<
                PolynomialModel,
                EvalError,
            >(acc@),
        decreases polynomial.monomials.len() - k,
    {
        assert(polynomial@.monomials[k as int] == polynomial.monomials@[k as int]@);
        let m = match reduce_factors(&polynomial.monomials[k], values) {
            Ok(m) => m,
            Err(e) => {
                proof {
                    lemma_reduce_terms_failure(
                        polynomial@,
                        values@,
                        k + 1,
                        polynomial@.monomials.len() as int,
                    );
                }
                return Err(e);
            },
        };
        acc = match acc.checked_add(&Polynomial::from_monomial(&m)) {
            Some(s) => s,
            None => {
                proof {
                    lemma_reduce_terms_failure(
                        polynomial@,
                        values@,
                        k + 1,
                        polynomial@.monomials.len() as int,
                    );
                }
                return Err(EvalError::Overflow);
            },
        };
        proof {
            lemma_terms_model_fits(&acc.monomials);
        }
        k += 1;
    }
    Ok(acc)
}

} // verus!
