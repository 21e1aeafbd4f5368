//! Polynomials: canonical sums of monomials.
use vstd::prelude::*;
use crate::division::{
    composites_in_play, confined, division_measure, division_step, division_steps,
    lemma_division_starts_confined, lemma_division_step_decreases, lemma_division_steps_wf,
    polynomial_division, polynomial_quotient,
};
use crate::algebra::{
    combine_terms_from, constant_polynomial, lemma_combine_terms_wf, lemma_product_fits_prefix,
    lemma_product_step, lemma_product_wf, lemma_times_monomial_fits_prefix,
    lemma_times_monomial_step, lemma_times_monomial_wf,
    monomial_polynomial, polynomial_difference, polynomial_negation, polynomial_product,
    polynomial_sum, polynomial_times_monomial, product_fits, product_fits_upto, product_upto,
    signed, signed_term, single_term, terms_fit, times_monomial_fits, times_monomial_fits_upto,
    times_monomial_upto, zero_polynomial,
};
use std::collections::HashMap;
use crate::evaluation::{
    as_model, evaluate_polynomial, evaluate_terms_upto, Assignment, EvalError,
};
use crate::meaning::{
    extends, lemma_polynomial_evaluates_to_value, polynomial_value, Valuation,
};
use crate::solutions::holds_under;
use crate::integer::checked_neg;
use crate::model::{
    compare_polynomials, compare_terms_from, monomial_wf, polynomial_wf, Comparison, Identifier,
    MonomialModel, PolynomialModel,
};
use crate::monomial::{
    clone_powers, compare_powers, lemma_shift_head, monomial_model, Monomial,
};

verus! {

/// A sum of monomials. In canonical form the terms stand in strictly
/// decreasing order of shape and no coefficient is zero; the polynomial
/// without terms is zero.
#[derive(Debug, Eq)]
pub struct Polynomial {
    pub monomials: Vec<Monomial>,
}

/// The model of a list of terms.
pub open spec fn terms_model(v: &Vec<Monomial>) -> Seq<MonomialModel>
    decreases v,
{
    Seq::new(
        v@.len(),
        |i: int|
            if 0 <= i < v@.len() {
                monomial_model(&v@[i])
            } else {
                arbitrary()
            },
    )
}

/// The model of a polynomial.
pub open spec fn polynomial_model(p: &Polynomial) -> PolynomialModel
    decreases p,
{
    PolynomialModel { monomials: terms_model(&p.monomials) }
}

impl View for Polynomial {
    type V = PolynomialModel;

    open spec fn view(&self) -> PolynomialModel {
        polynomial_model(self)
    }
}

/// A copy of a list of terms.
pub fn clone_terms(v: &Vec<Monomial>) -> (r: Vec<Monomial>)
    ensures
        terms_model(&r) == terms_model(v),
{
    let mut terms: Vec<Monomial> = Vec::new();
    let mut i: usize = 0;
    while i < v.len()
        invariant
            i <= v.len(),
            terms@.len() == i,
            forall|k: int| 0 <= k < i ==> (#[trigger] terms@[k])@ == v@[k]@,
        decreases v.len() - i,
    {
        terms.push(v[i].clone());
        i += 1;
    }
    assert(terms_model(&terms) =~= terms_model(v));
    terms
}

impl Clone for Polynomial {
    fn clone(&self) -> (r: Self)
        ensures
            r@ == self@,
    {
        Polynomial { monomials: clone_terms(&self.monomials) }
    }
}

/// Pushing a term onto a list pushes its model onto the list's model.
pub proof fn lemma_terms_model_push(before: &Vec<Monomial>, after: &Vec<Monomial>, m: MonomialModel)
    requires
        after@.len() == before@.len() + 1,
        forall|k: int| 0 <= k < before@.len() ==> after@[k] == before@[k],
        after@[before@.len() as int]@ == m,
    ensures
        terms_model(after) == terms_model(before).push(m),
{
    assert(terms_model(after) =~= terms_model(before).push(m));
}

/// The powers of a polynomial are values of the exponent type.
pub proof fn lemma_polynomial_model_fits(p: &Polynomial)
    ensures
        forall|i: int|
            0 <= i < p@.monomials.len() ==> crate::shape::shape_fits(
                (#[trigger] p@.monomials[i]).powers,
            ),
{
    assert forall|i: int| 0 <= i < p@.monomials.len() implies crate::shape::shape_fits(
        (#[trigger] p@.monomials[i]).powers,
    ) by {
        let s = p@.monomials[i].powers;
        assert(s == crate::monomial::shape_model(&p.monomials@[i].powers));
        assert forall|k: int| 0 <= k < s.len() implies (#[trigger] s[k]).1 <= u8::MAX by {}
    }
}

/// The coefficients of a polynomial are values of the coefficient type.
pub proof fn lemma_terms_model_fits(v: &Vec<Monomial>)
    ensures
        terms_fit(terms_model(v)),
{
}

/// Whether a polynomial is a constant: it has no terms, or a single term
/// without factors.
pub open spec fn polynomial_is_constant(p: PolynomialModel) -> bool {
    p.monomials.len() == 0 || (p.monomials.len() == 1 && p.monomials[0].powers.len() == 0)
}

/// The value of a constant polynomial.
pub open spec fn constant_value(p: PolynomialModel) -> int
    recommends
        polynomial_is_constant(p),
{
    if p.monomials.len() == 0 {
        0
    } else {
        p.monomials[0].coefficient
    }
}

/// A failure among the first `k` terms is the failure of the whole.
pub proof fn lemma_terms_failure(p: PolynomialModel, values: Assignment, k: int, n: int)
    requires
        0 <= k <= n <= p.monomials.len(),
        evaluate_terms_upto(p, values, k).is_err(),
    ensures
        evaluate_terms_upto(p, values, n) == evaluate_terms_upto(p, values, k),
    decreases n - k,
{
    if k < n {
        lemma_terms_failure(p, values, k, n - 1);
    }
}

impl Polynomial {
    /// Evaluates the polynomial under an assignment: the sum of the values
    /// of its terms. Fails with the first missing variable, division by
    /// zero or overflow met. A value returned is what the polynomial stands
    /// for.
    pub fn eval(&self, values: &HashMap<Identifier, i64>) -> (r: Result<
        i64,
        EvalError,
    >)
        ensures
            as_model(r) == evaluate_polynomial(self@, values@),
            match r {
                Ok(x) => holds_under(self@, x as int, values@),
                Err(_) => true,
            },
        decreases self, 1nat,
    {
        proof {
            if evaluate_polynomial(self@, values@).is_ok() {
                assert forall|v: Valuation| #[trigger] extends(v, values@) implies Ok::<
                    int,
                    EvalError,
                >(polynomial_value(self@, v)) == evaluate_polynomial(self@, values@) by {
                    lemma_polynomial_evaluates_to_value(self@, values@, v);
                }
            }
        }
        self.sum_terms(values)
    }

    /// Adds up the values of the terms.
    fn sum_terms(&self, values: &HashMap<Identifier, i64>) -> (r: Result<
        i64,
        EvalError,
    >)
        ensures
            as_model(r) == evaluate_polynomial(self@, values@),
        decreases self, 0nat,
    {
        let mut value: i64 = 0;
        let mut k: usize = 0;
        while k < self.monomials.len()
            invariant
                k <= self.monomials.len(),
                evaluate_terms_upto(self@, values@, k as int) == Ok::<int, EvalError>(
                    value as int,
                ),
            decreases self.monomials.len() - k,
        {
            assert(self@.monomials[k as int] == self.monomials@[k as int]@);
            let v = match self.monomials[k].evaluate(values) {
                Ok(v) => v,
                Err(e) => {
                    proof {
                        lemma_terms_failure(self@, values@, k + 1, self@.monomials.len() as int);
                    }
                    return Err(e);
                },
            };
            value = match value.checked_add(v) {
                Some(s) => s,
                None => {
                    proof {
                        lemma_terms_failure(self@, values@, k + 1, self@.monomials.len() as int);
                    }
                    return Err(EvalError::Overflow);
                },
            };
            k += 1;
        }
        Ok(value)
    }

    /// The zero polynomial.
    pub fn zero() -> (r: Polynomial)
        ensures
            r@ == zero_polynomial(),
            polynomial_wf(r@),
    {
        let r = Polynomial { monomials: Vec::new() };
        assert(r@.monomials =~= Seq::empty());
        r
    }

    /// The polynomial with the single term `m`, or zero where the
    /// coefficient of `m` is zero.
    pub fn from_monomial(m: &Monomial) -> (r: Polynomial)
        ensures
            r@ == monomial_polynomial(m@),
            monomial_wf(m@) ==> polynomial_wf(r@),
    {
        let mut monomials: Vec<Monomial> = Vec::new();
        if m.coefficient != 0 {
            monomials.push(m.clone());
        }
        let r = Polynomial { monomials };
        assert(r@.monomials =~= single_term(m@));
        r
    }

    /// The constant polynomial with the given value.
    pub fn constant(value: i64) -> (r: Polynomial)
        ensures
            r@ == constant_polynomial(value as int),
            polynomial_wf(r@),
    {
        Polynomial::from_monomial(&Monomial::constant(value))
    }

    /// The value of a constant polynomial; of another, the coefficient of
    /// its leading term.
    pub fn constant_value(&self) -> (r: i64)
        ensures
            r == constant_value(self@),
    {
        if self.monomials.len() == 0 {
            0
        } else {
            self.monomials[0].coefficient
        }
    }

    /// Whether the polynomial depends on no variable.
    pub fn is_constant(&self) -> (r: bool)
        ensures
            r == polynomial_is_constant(self@),
    {
        if self.monomials.len() == 0 {
            true
        } else if self.monomials.len() == 1 {
            self.monomials[0].is_constant()
        } else {
            false
        }
    }

    /// The terms of `self` plus or minus those of `rhs`, merged by
    /// decreasing shape; `None` where a coefficient is out of range.
    fn combine(&self, rhs: &Polynomial, negate: bool) -> (r: Option<Polynomial>)
        ensures
            match r {
                Some(s) => s@.monomials == combine_terms_from(
                    self@.monomials,
                    rhs@.monomials,
                    0,
                    0,
                    negate,
                ),
                None => !terms_fit(
                    combine_terms_from(
                        self@.monomials,
                        rhs@.monomials,
                        0,
                        0,
                        negate,
                    ),
                ),
            },
    {
        let ghost p = self@.monomials;
        let ghost q = rhs@.monomials;
        let ghost whole = combine_terms_from(p, q, 0, 0, negate);
        let mut out: Vec<Monomial> = Vec::new();
        let mut i: usize = 0;
        let mut j: usize = 0;
        assert(terms_model(&out) + whole =~= whole);
        while i < self.monomials.len() || j < rhs.monomials.len()
            invariant
                i <= self.monomials.len(),
                j <= rhs.monomials.len(),
                p == terms_model(&self.monomials),
                q == terms_model(&rhs.monomials),
                whole == combine_terms_from(p, q, 0, 0, negate),
                whole == terms_model(&out) + combine_terms_from(p, q, i as int, j as int, negate),
            decreases self.monomials.len() - i + rhs.monomials.len() - j,
        {
            let ghost before = out;
            let ghost done = terms_model(&out);
            let c = if i >= self.monomials.len() {
                Comparison::Less
            } else if j >= rhs.monomials.len() {
                Comparison::Greater
            } else {
                compare_powers(&self.monomials[i].powers, &rhs.monomials[j].powers)
            };
            match c {
                Comparison::Greater => {
                    out.push(self.monomials[i].clone());
                    proof {
                        lemma_terms_model_push(&before, &out, p[i as int]);
                        lemma_shift_head(
                            done,
                            p[i as int],
                            combine_terms_from(p, q, i + 1, j as int, negate),
                        );
                    }
                    i += 1;
                },
                Comparison::Less => {
                    let ghost head = signed_term(q[j as int], negate);
                    let ghost rest = combine_terms_from(p, q, i as int, j + 1, negate);
                    assert(whole == done + (seq![head] + rest));
                    let coefficient = if negate {
                        match checked_neg(rhs.monomials[j].coefficient) {
                            Some(c) => c,
                            None => {
                                assert(whole[done.len() as int] == head);
                                return None;
                            },
                        }
                    } else {
                        rhs.monomials[j].coefficient
                    };
                    out.push(Monomial { coefficient, powers: clone_powers(&rhs.monomials[j].powers) });
                    proof {
                        lemma_terms_model_push(&before, &out, head);
                        lemma_shift_head(done, head, rest);
                    }
                    j += 1;
                },
                Comparison::Equal => {
                    let ghost head = MonomialModel {
                        coefficient: p[i as int].coefficient + signed(q[j as int].coefficient, negate),
                        powers: p[i as int].powers,
                    };
                    let ghost rest = combine_terms_from(p, q, i + 1, j + 1, negate);
                    assert(whole == done + (single_term(head) + rest));
                    let sum = if negate {
                        self.monomials[i].coefficient.checked_sub(rhs.monomials[j].coefficient)
                    } else {
                        self.monomials[i].coefficient.checked_add(rhs.monomials[j].coefficient)
                    };
                    match sum {
                        Some(coefficient) => {
                            if coefficient != 0 {
                                out.push(
                                    Monomial {
                                        coefficient,
                                        powers: clone_powers(&self.monomials[i].powers),
                                    },
                                );
                                proof {
                                    lemma_terms_model_push(&before, &out, head);
                                    lemma_shift_head(done, head, rest);
                                }
                            } else {
                                assert(single_term(head) + rest =~= rest);
                            }
                        },
                        None => {
                            assert(whole[done.len() as int] == head);
                            return None;
                        },
                    }
                    i += 1;
                    j += 1;
                },
            }
        }
        assert(terms_model(&out) =~= whole);
        Some(Polynomial { monomials: out })
    }

    /// The sum of two polynomials, or `None` where a coefficient of the sum
    /// is out of range.
    pub fn checked_add(&self, rhs: &Polynomial) -> (r: Option<Polynomial>)
        ensures
            match r {
                Some(s) => s@ == polynomial_sum(self@, rhs@),
                None => !terms_fit(polynomial_sum(self@, rhs@).monomials),
            },
            polynomial_wf(self@) && polynomial_wf(rhs@) ==> polynomial_wf(
                polynomial_sum(self@, rhs@),
            ),
    {
        proof {
            if polynomial_wf(self@) && polynomial_wf(rhs@) {
                lemma_combine_terms_wf(self@.monomials, rhs@.monomials, 0, 0, false);
            }
        }
        self.combine(rhs, false)
    }

    /// The difference of two polynomials, or `None` where a coefficient of
    /// the difference is out of range.
    pub fn checked_sub(&self, rhs: &Polynomial) -> (r: Option<Polynomial>)
        ensures
            match r {
                Some(s) => s@ == polynomial_difference(self@, rhs@),
                None => !terms_fit(polynomial_difference(self@, rhs@).monomials),
            },
            polynomial_wf(self@) && polynomial_wf(rhs@) ==> polynomial_wf(
                polynomial_difference(self@, rhs@),
            ),
    {
        proof {
            if polynomial_wf(self@) && polynomial_wf(rhs@) {
                lemma_combine_terms_wf(self@.monomials, rhs@.monomials, 0, 0, true);
            }
        }
        self.combine(rhs, true)
    }

    /// The polynomial with every coefficient negated, or `None` where one of
    /// them is out of range.
    pub fn checked_neg(&self) -> (r: Option<Polynomial>)
        ensures
            match r {
                Some(s) => s@ == polynomial_negation(self@),
                None => !terms_fit(polynomial_negation(self@).monomials),
            },
            polynomial_wf(self@) ==> polynomial_wf(polynomial_negation(self@)),
    {
        let zero = Polynomial::zero();
        proof {
            if polynomial_wf(self@) {
                lemma_combine_terms_wf(zero@.monomials, self@.monomials, 0, 0, true);
            }
        }
        zero.combine(self, true)
    }

    /// The product of the polynomial and a monomial, or `None` where a
    /// product of terms, or a sum of them, is out of range.
    pub fn checked_mul_monomial(&self, m: &Monomial) -> (r: Option<Polynomial>)
        ensures
            match r {
                Some(s) => s@ == polynomial_times_monomial(self@, m@) && times_monomial_fits(
                    self@,
                    m@,
                ),
                None => !times_monomial_fits(self@, m@),
            },
            polynomial_wf(self@) && monomial_wf(m@) ==> polynomial_wf(
                polynomial_times_monomial(self@, m@),
            ),
    {
        let ghost p = self@;
        let ghost n = self@.monomials.len() as int;
        proof {
            if polynomial_wf(p) && monomial_wf(m@) {
                lemma_times_monomial_wf(p, m@, n);
            }
        }
        let mut acc = Polynomial::zero();
        let mut k: usize = 0;
        while k < self.monomials.len()
            invariant
                k <= self.monomials.len(),
                p == self@,
                n == self.monomials.len(),
                acc@ == times_monomial_upto(p, m@, k as int),
                times_monomial_fits_upto(p, m@, k as int),
                polynomial_wf(p) && monomial_wf(m@) ==> polynomial_wf(
                    polynomial_times_monomial(p, m@),
                ),
            decreases self.monomials.len() - k,
        {
            proof {
                lemma_times_monomial_step(p, m@, k as int);
                if times_monomial_fits(p, m@) {
                    lemma_times_monomial_fits_prefix(p, m@, k + 1, n);
                }
            }
            assert(p.monomials[k as int] == self.monomials@[k as int]@);
            let product = self.monomials[k].checked_mul(m);
            if product.is_none() {
                return None;
            }
            let term = Polynomial::from_monomial(&product.unwrap());
            let sum = acc.checked_add(&term);
            if sum.is_none() {
                return None;
            }
            acc = sum.unwrap();
            proof {
                lemma_terms_model_fits(&acc.monomials);
            }
            k += 1;
        }
        Some(acc)
    }

    /// The product of the polynomial and a constant, or `None` where a
    /// coefficient is out of range.
    pub fn checked_mul_constant(&self, c: i64) -> (r: Option<Polynomial>)
        ensures
            match r {
                Some(s) => s@ == polynomial_times_monomial(
                    self@,
                    MonomialModel { coefficient: c as int, powers: Seq::empty() },
                ),
                None => !times_monomial_fits(
                    self@,
                    MonomialModel { coefficient: c as int, powers: Seq::empty() },
                ),
            },
            polynomial_wf(self@) ==> polynomial_wf(
                polynomial_times_monomial(
                    self@,
                    MonomialModel { coefficient: c as int, powers: Seq::empty() },
                ),
            ),
    {
        self.checked_mul_monomial(&Monomial::constant(c))
    }

    /// The product of two polynomials: the products of `rhs` with each term
    /// of `self`, added up one by one. `None` where one of these products or
    /// sums is out of range.
    pub fn checked_mul(&self, rhs: &Polynomial) -> (r: Option<Polynomial>)
        ensures
            match r {
                Some(s) => s@ == polynomial_product(self@, rhs@) && product_fits(self@, rhs@),
                None => !product_fits(self@, rhs@),
            },
            polynomial_wf(self@) && polynomial_wf(rhs@) ==> polynomial_wf(
                polynomial_product(self@, rhs@),
            ),
    {
        let ghost p = self@;
        let ghost q = rhs@;
        let ghost n = self@.monomials.len() as int;
        proof {
            if polynomial_wf(p) && polynomial_wf(q) {
                lemma_product_wf(p, q, n);
            }
        }
        let mut acc = Polynomial::zero();
        let mut k: usize = 0;
        while k < self.monomials.len()
            invariant
                k <= self.monomials.len(),
                p == self@,
                q == rhs@,
                n == self.monomials.len(),
                acc@ == product_upto(p, q, k as int),
                product_fits_upto(p, q, k as int),
                polynomial_wf(p) && polynomial_wf(q) ==> polynomial_wf(polynomial_product(p, q)),
            decreases self.monomials.len() - k,
        {
            proof {
                lemma_product_step(p, q, k as int);
                if product_fits(p, q) {
                    lemma_product_fits_prefix(p, q, k + 1, n);
                }
            }
            assert(p.monomials[k as int] == self.monomials@[k as int]@);
            let part = rhs.checked_mul_monomial(&self.monomials[k]);
            if part.is_none() {
                return None;
            }
            let sum = acc.checked_add(&part.unwrap());
            if sum.is_none() {
                return None;
            }
            acc = sum.unwrap();
            proof {
                lemma_terms_model_fits(&acc.monomials);
            }
            k += 1;
        }
        Some(acc)
    }

    /// One step of the long division of a remainder by `rhs`: the new
    /// quotient and remainder, or `None` where the division stops.
    fn division_step(quotient: &Polynomial, remainder: &Polynomial, rhs: &Polynomial) -> (r:
        Option<(Polynomial, Polynomial)>)
        ensures
            match r {
                Some((q, r)) => division_step(quotient@, remainder@, rhs@) == Some((q@, r@)),
                None => division_step(quotient@, remainder@, rhs@).is_none(),
            },
    {
        if remainder.monomials.len() == 0 || rhs.monomials.len() == 0 {
            return None;
        }
        assert(remainder@.monomials[0] == remainder.monomials@[0]@);
        assert(rhs@.monomials[0] == rhs.monomials@[0]@);
        let x = remainder.monomials[0].checked_div(&rhs.monomials[0]);
        if x.is_none() {
            return None;
        }
        let x = x.unwrap();
        let next_quotient = quotient.checked_add(&Polynomial::from_monomial(&x));
        if next_quotient.is_none() {
            return None;
        }
        let part = rhs.checked_mul_monomial(&x);
        if part.is_none() {
            return None;
        }
        let next_remainder = remainder.checked_sub(&part.unwrap());
        if next_remainder.is_none() {
            return None;
        }
        let next_quotient = next_quotient.unwrap();
        let next_remainder = next_remainder.unwrap();
        proof {
            lemma_terms_model_fits(&next_quotient.monomials);
            lemma_terms_model_fits(&next_remainder.monomials);
        }
        Some((next_quotient, next_remainder))
    }

    /// Takes steps of the long division by `rhs` until one fails.
    fn divide(&self, rhs: &Polynomial) -> (r: (Polynomial, Polynomial))
        requires
            polynomial_wf(self@),
            polynomial_wf(rhs@),
        ensures
            (r.0@, r.1@) == polynomial_division(self@, rhs@),
    {
        let ghost u = composites_in_play(self@, rhs@);
        proof {
            lemma_polynomial_model_fits(self);
            lemma_polynomial_model_fits(rhs);
            lemma_division_starts_confined(self@, rhs@);
        }
        let mut quotient = Polynomial::zero();
        let mut remainder = self.clone();
        loop
            invariant
                confined(u, remainder@),
                confined(u, rhs@),
                division_steps(quotient@, remainder@, rhs@, u) == polynomial_division(
                    self@,
                    rhs@,
                ),
            decreases division_measure(remainder@, u),
        {
            match Polynomial::division_step(&quotient, &remainder, rhs) {
                None => {
                    return (quotient, remainder);
                },
                Some((q, r)) => {
                    proof {
                        lemma_division_step_decreases(quotient@, remainder@, rhs@, u);
                    }
                    quotient = q;
                    remainder = r;
                },
            }
        }
    }

    /// Long division by `rhs` under the canonical order. While the
    /// remainder is not zero, its leading term is divided by the leading
    /// term of `rhs`; where that is exact, the result joins the quotient and
    /// its product with `rhs` leaves the remainder; where it is not, or the
    /// step would leave the machine's range, the division stops. Returns the
    /// quotient and the remainder. Both polynomials must be canonical.
    pub fn div_rem(&self, rhs: &Polynomial) -> (r: (Polynomial, Polynomial))
        requires
            polynomial_wf(self@),
            polynomial_wf(rhs@),
        ensures
            (r.0@, r.1@) == polynomial_division(self@, rhs@),
            polynomial_wf(r.0@),
            polynomial_wf(r.1@),
    {
        proof {
            lemma_division_steps_wf(
                zero_polynomial(),
                self@,
                rhs@,
                composites_in_play(self@, rhs@),
            );
        }
        self.divide(rhs)
    }

    /// The quotient by `rhs` where the long division leaves no remainder,
    /// else `None`. Both polynomials must be canonical.
    pub fn checked_div(&self, rhs: &Polynomial) -> (r: Option<Polynomial>)
        requires
            polynomial_wf(self@),
            polynomial_wf(rhs@),
        ensures
            match r {
                Some(q) => polynomial_quotient(self@, rhs@) == Some(q@) && polynomial_wf(q@),
                None => polynomial_quotient(self@, rhs@).is_none(),
            },
    {
        let (quotient, remainder) = self.div_rem(rhs);
        if remainder.monomials.len() == 0 {
            Some(quotient)
        } else {
            None
        }
    }

    /// Compares two polynomials in the canonical order: the first differing
    /// term decides; if there is none, the longer polynomial is greater.
    pub fn compare(&self, other: &Polynomial) -> (r: Comparison)
        ensures
            r == compare_polynomials(self@, other@),
        decreases self, 0nat,
    {
        let mut i: usize = 0;
        while i < self.monomials.len() && i < other.monomials.len()
            invariant
                i <= self.monomials.len(),
                i <= other.monomials.len(),
                compare_polynomials(self@, other@) == compare_terms_from(
                    self@.monomials,
                    other@.monomials,
                    i as int,
                ),
            decreases self.monomials.len() - i,
        {
            let c = self.monomials[i].compare(&other.monomials[i]);
            if c != Comparison::Equal {
                return c;
            }
            i += 1;
        }
        if self.monomials.len() < other.monomials.len() {
            Comparison::Less
        } else if self.monomials.len() == other.monomials.len() {
            Comparison::Equal
        } else {
            Comparison::Greater
        }
    }
}

} // verus!
