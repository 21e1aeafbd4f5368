//! Monomials: a coefficient times a canonical product of composites.
use vstd::prelude::*;
use crate::composite::{composite_model, Composite};
use std::collections::HashMap;
use crate::evaluation::{
    as_model, evaluate_factors_upto, evaluate_monomial, multiply_by_power, EvalError,
};
use crate::integer::{checked_exact_div, checked_neg, checked_pow, exact_quotient, fits_i64};
use crate::model::{
    compare_composites, compare_monomials, compare_shapes, compare_shapes_from, monomial_wf,
    Comparison, CompositeModel, Identifier, MonomialModel, Shape,
};
use crate::order::{lemma_compare_composites_equal, lemma_compare_shapes_equal};
use crate::shape::{
    divide_shapes, divide_shapes_from, lemma_divide_shapes_wf, lemma_multiply_shapes_wf,
    multiply_shapes, multiply_shapes_from, power_in, shape_divides, shape_fits,
};

verus! {

/// A coefficient times the product of its factors, each a composite raised
/// to a power. In canonical form the factors stand in strictly decreasing
/// order of composite and every power is positive. A monomial without
/// factors is a constant.
#[derive(Debug, Eq)]
pub struct Monomial {
    pub coefficient: i64,
    pub powers: Vec<(Composite, u8)>,
}

/// The model of a list of factors.
pub open spec fn shape_model(v: &Vec<(Composite, u8)>) -> Shape
    decreases v,
{
    Seq::new(
        v@.len(),
        |i: int|
            if 0 <= i < v@.len() {
                (composite_model(&v@[i].0), v@[i].1 as nat)
            } else {
                arbitrary()
            },
    )
}

/// The model of a monomial.
pub open spec fn monomial_model(m: &Monomial) -> MonomialModel
    decreases m,
{
    MonomialModel { coefficient: m.coefficient as int, powers: shape_model(&m.powers) }
}

impl View for Monomial {
    type V = MonomialModel;

    open spec fn view(&self) -> MonomialModel {
        monomial_model(self)
    }
}

/// A copy of a list of factors.
pub fn clone_powers(v: &Vec<(Composite, u8)>) -> (r: Vec<(Composite, u8)>)
    ensures
        shape_model(&r) == shape_model(v),
{
    let mut powers: Vec<(Composite, u8)> = Vec::new();
    let mut i: usize = 0;
    while i < v.len()
        invariant
            i <= v.len(),
            powers@.len() == i,
            forall|k: int|
                0 <= k < i ==> (#[trigger] powers@[k]).0@ == v@[k].0@ && powers@[k].1 == v@[k].1,
        decreases v.len() - i,
    {
        powers.push((v[i].0.clone(), v[i].1));
        i += 1;
    }
    assert(shape_model(&powers) =~= shape_model(v));
    powers
}

impl Clone for Monomial {
    fn clone(&self) -> (r: Self)
        ensures
            r@ == self@,
    {
        Monomial { coefficient: self.coefficient, powers: clone_powers(&self.powers) }
    }
}

/// Compares two lists of factors in the canonical order of shapes.
pub fn compare_powers(a: &Vec<(Composite, u8)>, b: &Vec<(Composite, u8)>) -> (r: Comparison)
    ensures
        r == compare_shapes(shape_model(a), shape_model(b)),
    decreases a, 0nat,
{
    let mut i: usize = 0;
    while i < a.len() && i < b.len()
        invariant
            i <= a.len(),
            i <= b.len(),
            compare_shapes(shape_model(a), shape_model(b)) == compare_shapes_from(
                shape_model(a),
                shape_model(b),
                i as int,
            ),
        decreases a.len() - i,
    {
        let c = a[i].0.compare(&b[i].0);
        if c != Comparison::Equal {
            return c;
        }
        if a[i].1 < b[i].1 {
            return Comparison::Less;
        }
        if a[i].1 > b[i].1 {
            return Comparison::Greater;
        }
        i += 1;
    }
    if a.len() < b.len() {
        Comparison::Less
    } else if a.len() == b.len() {
        Comparison::Equal
    } else {
        Comparison::Greater
    }
}

/// Pushing a factor onto a list pushes its model onto the list's model.
pub proof fn lemma_shape_model_push(
    before: &Vec<(Composite, u8)>,
    after: &Vec<(Composite, u8)>,
    c: CompositeModel,
    e: u8,
)
    requires
        after@.len() == before@.len() + 1,
        forall|k: int| 0 <= k < before@.len() ==> after@[k] == before@[k],
        after@[before@.len() as int].0@ == c,
        after@[before@.len() as int].1 == e,
    ensures
        shape_model(after) == shape_model(before).push((c, e as nat)),
{
    assert(shape_model(after) =~= shape_model(before).push((c, e as nat)));
}

/// Moving the head of what is left to the end of what is done leaves the
/// whole unchanged.
pub proof fn lemma_shift_head<A>(done: Seq<A>, head: A, rest: Seq<A>)
    ensures
        done + (seq![head] + rest) == done.push(head) + rest,
{
    assert(done + (seq![head] + rest) =~= done.push(head) + rest);
}

/// The product of two monomials.
pub open spec fn monomial_product(a: MonomialModel, b: MonomialModel) -> MonomialModel {
    MonomialModel {
        coefficient: a.coefficient * b.coefficient,
        powers: multiply_shapes(a.powers, b.powers),
    }
}

/// The monomial with the opposite coefficient.
pub open spec fn monomial_negation(a: MonomialModel) -> MonomialModel {
    MonomialModel { coefficient: -a.coefficient, powers: a.powers }
}

/// Whether the coefficient and the powers of a monomial are values of their
/// machine types.
pub open spec fn monomial_fits(m: MonomialModel) -> bool {
    fits_i64(m.coefficient) && shape_fits(m.powers)
}

/// The exact quotient of two monomials: the coefficient divides evenly and
/// every factor of the divisor is a factor of the dividend to at least the
/// same power. `None` where there is no exact quotient, or its coefficient
/// is out of range.
pub open spec fn monomial_quotient(a: MonomialModel, b: MonomialModel) -> Option<MonomialModel> {
    match exact_quotient(a.coefficient, b.coefficient) {
        Some(c) => if shape_divides(b.powers, a.powers) {
            Some(MonomialModel { coefficient: c as int, powers: divide_shapes(a.powers, b.powers) })
        } else {
            None
        },
        None => None,
    }
}

/// The power of a composite in a list of factors: zero where it is no
/// factor.
pub fn power_of(v: &Vec<(Composite, u8)>, c: &Composite) -> (r: u8)
    ensures
        r == power_in(shape_model(v), c@),
{
    let mut i: usize = v.len();
    assert(shape_model(v).take(i as int) =~= shape_model(v));
    while i > 0
        invariant
            i <= v.len(),
            power_in(shape_model(v), c@) == power_in(shape_model(v).take(i as int), c@),
        decreases i,
    {
        let ghost prefix = shape_model(v).take(i as int);
        assert(prefix.last() == shape_model(v)[i - 1]);
        assert(prefix.drop_last() =~= shape_model(v).take(i - 1));
        proof {
            lemma_compare_composites_equal(v@[i - 1].0@, c@);
        }
        if v[i - 1].0.compare(c) == Comparison::Equal {
            return v[i - 1].1;
        }
        i -= 1;
    }
    assert(shape_model(v).take(0).len() == 0);
    0
}

/// A failure among the first `k` factors is the failure of the whole.
pub proof fn lemma_factors_failure(
    m: MonomialModel,
    values: crate::evaluation::Assignment,
    k: int,
    n: int,
)
    requires
        0 <= k <= n <= m.powers.len(),
        evaluate_factors_upto(m, values, k).is_err(),
    ensures
        evaluate_factors_upto(m, values, n) == evaluate_factors_upto(m, values, k),
    decreases n - k,
{
    if k < n {
        lemma_factors_failure(m, values, k, n - 1);
    }
}

/// A value multiplied by another to a power.
pub fn times_power(v: i64, x: i64, e: u8) -> (r: Result<i64, EvalError>)
    ensures
        as_model(r) == multiply_by_power(v as int, x as int, e as nat),
{
    match checked_pow(x, e as usize) {
        None => Err(EvalError::Overflow),
        Some(p) => match v.checked_mul(p) {
            None => Err(EvalError::Overflow),
            Some(w) => Ok(w),
        },
    }
}

impl Monomial {
    /// Evaluates the monomial under an assignment: the coefficient times
    /// the value of each factor raised to its power. The first failure met
    /// ends the evaluation.
    pub fn evaluate(&self, values: &HashMap<Identifier, i64>) -> (r: Result<
        i64,
        EvalError,
    >)
        ensures
            as_model(r) == evaluate_monomial(self@, values@),
        decreases self, 0nat,
    {
        let mut value = self.coefficient;
        let mut k: usize = 0;
        while k < self.powers.len()
            invariant
                k <= self.powers.len(),
                evaluate_factors_upto(self@, values@, k as int) == Ok::<int, EvalError>(
                    value as int,
                ),
            decreases self.powers.len() - k,
        {
            assert(self@.powers[k as int] == (self.powers@[k as int].0@, self.powers@[k as int].1 as nat));
            let x = match self.powers[k].0.eval(values) {
                Ok(x) => x,
                Err(e) => {
                    proof {
                        lemma_factors_failure(self@, values@, k + 1, self@.powers.len() as int);
                    }
                    return Err(e);
                },
            };
            value = match times_power(value, x, self.powers[k].1) {
                Ok(v) => v,
                Err(e) => {
                    proof {
                        lemma_factors_failure(self@, values@, k + 1, self@.powers.len() as int);
                    }
                    return Err(e);
                },
            };
            k += 1;
        }
        Ok(value)
    }

    /// The constant monomial with the given value.
    pub fn constant(value: i64) -> (r: Monomial)
        ensures
            r@ == (MonomialModel { coefficient: value as int, powers: Seq::empty() }),
            monomial_wf(r@),
    {
        let r = Monomial { coefficient: value, powers: Vec::new() };
        assert(r@.powers =~= Seq::empty());
        r
    }

    /// The monomial that is the variable `id` to the power one.
    pub fn variable(id: Identifier) -> (r: Monomial)
        ensures
            r@ == (MonomialModel {
                coefficient: 1,
                powers: seq![(CompositeModel::Variable(id), 1nat)],
            }),
            monomial_wf(r@),
    {
        let mut powers: Vec<(Composite, u8)> = Vec::new();
        powers.push((Composite::Variable(id), 1));
        let r = Monomial { coefficient: 1, powers };
        assert(r@.powers =~= seq![(CompositeModel::Variable(id), 1nat)]);
        r
    }

    /// Whether the two monomials are equal up to their coefficients: they
    /// have the same factors with the same powers.
    pub fn up_to_coefficient(&self, other: &Monomial) -> (r: bool)
        ensures
            r == (self@.powers == other@.powers),
    {
        proof {
            lemma_compare_shapes_equal(self@.powers, other@.powers);
        }
        compare_powers(&self.powers, &other.powers) == Comparison::Equal
    }

    /// Whether the monomial has no factors.
    pub fn is_constant(&self) -> (r: bool)
        ensures
            r == (self@.powers.len() == 0),
    {
        self.powers.len() == 0
    }

    /// The monomial with the opposite coefficient, or `None` where that is
    /// out of range.
    pub fn checked_neg(&self) -> (r: Option<Monomial>)
        ensures
            match r {
                Some(m) => m@ == monomial_negation(self@),
                None => !fits_i64(-self@.coefficient),
            },
    {
        match checked_neg(self.coefficient) {
            Some(c) => Some(Monomial { coefficient: c, powers: clone_powers(&self.powers) }),
            None => None,
        }
    }

    /// The product of two monomials: the coefficients multiplied and the
    /// factors merged, with the powers of shared composites added. `None`
    /// where the coefficient or a power of the product is out of range.
    pub fn checked_mul(&self, rhs: &Monomial) -> (r: Option<Monomial>)
        ensures
            match r {
                Some(m) => m@ == monomial_product(self@, rhs@) && monomial_fits(m@),
                None => !monomial_fits(monomial_product(self@, rhs@)),
            },
            monomial_wf(self@) && monomial_wf(rhs@) ==> monomial_wf(
                monomial_product(self@, rhs@),
            ),
    {
        let ghost a = self@.powers;
        let ghost b = rhs@.powers;
        proof {
            if monomial_wf(self@) && monomial_wf(rhs@) {
                lemma_multiply_shapes_wf(a, b, 0, 0);
            }
        }
        let mut out: Vec<(Composite, u8)> = Vec::new();
        let mut i: usize = 0;
        let mut j: usize = 0;
        assert(shape_model(&out) + multiply_shapes(a, b) =~= multiply_shapes(a, b));
        while i < self.powers.len() && j < rhs.powers.len()
            invariant
                i <= self.powers.len(),
                j <= rhs.powers.len(),
                a == shape_model(&self.powers),
                b == shape_model(&rhs.powers),
                multiply_shapes(a, b) == shape_model(&out) + multiply_shapes_from(
                    a,
                    b,
                    i as int,
                    j as int,
                ),
                monomial_wf(self@) && monomial_wf(rhs@) ==> monomial_wf(
                    monomial_product(self@, rhs@),
                ),
            decreases self.powers.len() - i + rhs.powers.len() - j,
        {
            let ghost before = out;
            let ghost done = shape_model(&out);
            let c = self.powers[i].0.compare(&rhs.powers[j].0);
            assert(c == compare_composites(a[i as int].0, b[j as int].0));
            match c {
                Comparison::Greater => {
                    out.push((self.powers[i].0.clone(), self.powers[i].1));
                    proof {
                        lemma_shape_model_push(&before, &out, a[i as int].0, self.powers[i as int].1);
                        lemma_shift_head(
                            done,
                            a[i as int],
                            multiply_shapes_from(a, b, i + 1, j as int),
                        );
                    }
                    i += 1;
                },
                Comparison::Less => {
                    out.push((rhs.powers[j].0.clone(), rhs.powers[j].1));
                    proof {
                        lemma_shape_model_push(&before, &out, b[j as int].0, rhs.powers[j as int].1);
                        lemma_shift_head(
                            done,
                            b[j as int],
                            multiply_shapes_from(a, b, i as int, j + 1),
                        );
                    }
                    j += 1;
                },
                Comparison::Equal => {
                    let ghost head = (a[i as int].0, a[i as int].1 + b[j as int].1);
                    let ghost rest = multiply_shapes_from(a, b, i + 1, j + 1);
                    match self.powers[i].1.checked_add(rhs.powers[j].1) {
                        Some(e) => {
                            out.push((self.powers[i].0.clone(), e));
                            proof {
                                lemma_shape_model_push(&before, &out, a[i as int].0, e);
                                lemma_shift_head(done, head, rest);
                            }
                            i += 1;
                            j += 1;
                        },
                        None => {
                            let ghost k = done.len() as int;
                            assert(multiply_shapes(a, b)[k] == head);
                            assert(!shape_fits(multiply_shapes(a, b)));
                            return None;
                        },
                    }
                },
            }
        }
        while i < self.powers.len()
            invariant
                i <= self.powers.len(),
                j <= rhs.powers.len(),
                i == self.powers.len() || j == rhs.powers.len(),
                a == shape_model(&self.powers),
                b == shape_model(&rhs.powers),
                multiply_shapes(a, b) == shape_model(&out) + multiply_shapes_from(
                    a,
                    b,
                    i as int,
                    j as int,
                ),
            decreases self.powers.len() - i,
        {
            let ghost before = out;
            let ghost done = shape_model(&out);
            out.push((self.powers[i].0.clone(), self.powers[i].1));
            proof {
                lemma_shape_model_push(&before, &out, a[i as int].0, self.powers[i as int].1);
                assert(a.skip(i as int) =~= seq![a[i as int]] + a.skip(i + 1));
                assert(multiply_shapes_from(a, b, i + 1, j as int) =~= a.skip(i + 1));
                lemma_shift_head(done, a[i as int], a.skip(i + 1));
            }
            i += 1;
        }
        while j < rhs.powers.len()
            invariant
                i == self.powers.len(),
                j <= rhs.powers.len(),
                a == shape_model(&self.powers),
                b == shape_model(&rhs.powers),
                multiply_shapes(a, b) == shape_model(&out) + multiply_shapes_from(
                    a,
                    b,
                    i as int,
                    j as int,
                ),
            decreases rhs.powers.len() - j,
        {
            let ghost before = out;
            let ghost done = shape_model(&out);
            out.push((rhs.powers[j].0.clone(), rhs.powers[j].1));
            proof {
                lemma_shape_model_push(&before, &out, b[j as int].0, rhs.powers[j as int].1);
                assert(b.skip(j as int) =~= seq![b[j as int]] + b.skip(j + 1));
                lemma_shift_head(done, b[j as int], b.skip(j + 1));
            }
            j += 1;
        }
        assert(shape_model(&out) =~= multiply_shapes(a, b));
        match self.coefficient.checked_mul(rhs.coefficient) {
            Some(c) => Some(Monomial { coefficient: c, powers: out }),
            None => None,
        }
    }

    /// The exact quotient of two monomials, or `None` where the coefficient
    /// does not divide evenly, a factor of the divisor is missing from the
    /// dividend or stands there to a lower power, or the quotient of the
    /// coefficients is out of range.
    pub fn checked_div(&self, rhs: &Monomial) -> (r: Option<Monomial>)
        ensures
            match r {
                Some(m) => monomial_quotient(self@, rhs@) == Some(m@),
                None => monomial_quotient(self@, rhs@).is_none(),
            },
            monomial_wf(self@) ==> match r {
                Some(m) => monomial_wf(m@),
                None => true,
            },
    {
        let d = match checked_exact_div(self.coefficient, rhs.coefficient) {
            Some(d) => d,
            None => {
                return None;
            },
        };
        let ghost s = self@.powers;
        let ghost t = rhs@.powers;
        let mut k: usize = 0;
        while k < rhs.powers.len()
            invariant
                k <= rhs.powers.len(),
                s == shape_model(&self.powers),
                t == shape_model(&rhs.powers),
                forall|x: int| 0 <= x < k ==> power_in(s, (#[trigger] t[x]).0) >= t[x].1,
            decreases rhs.powers.len() - k,
        {
            if power_of(&self.powers, &rhs.powers[k].0) < rhs.powers[k].1 {
                assert(power_in(s, t[k as int].0) < t[k as int].1);
                return None;
            }
            k += 1;
        }
        assert(shape_divides(t, s));
        let mut out: Vec<(Composite, u8)> = Vec::new();
        let mut i: usize = 0;
        while i < self.powers.len()
            invariant
                i <= self.powers.len(),
                s == shape_model(&self.powers),
                t == shape_model(&rhs.powers),
                divide_shapes(s, t) == shape_model(&out) + divide_shapes_from(s, t, i as int),
            decreases self.powers.len() - i,
        {
            let ghost before = shape_model(&out);
            let ghost whole = divide_shapes_from(s, t, i as int);
            let e = power_of(&rhs.powers, &self.powers[i].0);
            if self.powers[i].1 > e {
                out.push((self.powers[i].0.clone(), self.powers[i].1 - e));
                assert(shape_model(&out) =~= before + seq![whole[0]]);
            }
            i += 1;
            assert(before + whole =~= shape_model(&out) + divide_shapes_from(s, t, i as int));
        }
        assert(shape_model(&out) =~= divide_shapes(s, t));
        proof {
            if monomial_wf(self@) {
                lemma_divide_shapes_wf(s, t, 0);
            }
        }
        Some(Monomial { coefficient: d, powers: out })
    }

    /// Compares two monomials in the canonical order: by shape, then by
    /// coefficient.
    pub fn compare(&self, other: &Monomial) -> (r: Comparison)
        ensures
            r == compare_monomials(self@, other@),
        decreases self, 0nat,
    {
        let c = compare_powers(&self.powers, &other.powers);
        if c != Comparison::Equal {
            c
        } else if self.coefficient < other.coefficient {
            Comparison::Less
        } else if self.coefficient == other.coefficient {
            Comparison::Equal
        } else {
            Comparison::Greater
        }
    }
}

} // verus!
