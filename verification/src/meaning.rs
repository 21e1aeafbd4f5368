//! What an expression means: the integer it stands for when every variable
//! stands for an integer. Evaluation computes it, and sums, differences and
//! products of polynomials stand for the sums, differences and products of
//! what they stand for.
use vstd::prelude::*;
use vstd::arithmetic::power::{lemma_pow_adds, pow};
use crate::algebra::{
    monomial_polynomial, polynomial_difference, polynomial_product, polynomial_sum,
    polynomial_times_monomial, product_upto, single_term, times_monomial_upto,
};
use crate::coefficients::{
    lemma_weighted_sum_combine, lemma_weighted_sum_single, weighted_sum_from,
};
use crate::model::{compare_composites, Comparison};
use crate::monomial::monomial_product;
use crate::order::lemma_compare_composites_equal;
use crate::polynomial::{constant_value, polynomial_is_constant};
use crate::reduction::{
    absorb, rebuild, reduce_composite, reduce_factors_upto, reduce_monomial_model,
    reduce_polynomial, reduce_terms_upto, Reduced,
};
use crate::shape::{multiply_shapes, multiply_shapes_from};
use crate::evaluation::{
    evaluate_composite, evaluate_factors_upto, evaluate_monomial,
    evaluate_polynomial, evaluate_terms_upto, Assignment, EvalError,
};
use crate::functions::{max_int, min_int};
use crate::integer::{ceil_quotient, floor_quotient};
use crate::model::{CompositeModel, Identifier, MonomialModel, PolynomialModel, Shape};

verus! {

/// An integer for every variable.
pub type Valuation = spec_fn(Identifier) -> int;

/// Whether a valuation gives every variable of an assignment its value.
pub open spec fn extends(v: Valuation, values: Assignment) -> bool {
    forall|id: Identifier| #[trigger] values.contains_key(id) ==> v(id) == values[id]
}

/// What a composite stands for: the integer of a variable, or the floor or
/// the ceiling of the quotient, the minimum or the maximum, of what its
/// operands stand for.
pub open spec fn composite_value(c: CompositeModel, v: Valuation) -> int
    decreases c, 0nat,
{
    match c {
        CompositeModel::Variable(id) => v(id),
        CompositeModel::Floor(l, r) => floor_quotient(
            polynomial_value(l, v),
            polynomial_value(r, v),
        ),
        CompositeModel::Ceil(l, r) => ceil_quotient(polynomial_value(l, v), polynomial_value(r, v)),
        CompositeModel::Min(l, r) => min_int(polynomial_value(l, v), polynomial_value(r, v)),
        CompositeModel::Max(l, r) => max_int(polynomial_value(l, v), polynomial_value(r, v)),
    }
}

/// What the factors of a shape from position `i` on stand for: the product
/// of what the composites stand for, each raised to its power.
pub open spec fn shape_value_from(s: Shape, v: Valuation, i: int) -> int
    decreases s, s.len() - i,
{
    if i < 0 || i >= s.len() {
        1
    } else {
        pow(composite_value(s[i].0, v), s[i].1) * shape_value_from(s, v, i + 1)
    }
}

/// What a shape stands for.
pub open spec fn shape_value(s: Shape, v: Valuation) -> int
    decreases s, s.len() + 1,
{
    shape_value_from(s, v, 0)
}

/// What a monomial stands for: its coefficient times what its shape stands
/// for.
pub open spec fn monomial_value(m: MonomialModel, v: Valuation) -> int
    decreases m, 0nat,
{
    m.coefficient * shape_value(m.powers, v)
}

/// What the terms from position `i` on stand for: the sum of what the
/// monomials stand for.
pub open spec fn terms_value_from(p: Seq<MonomialModel>, v: Valuation, i: int) -> int
    decreases p, p.len() - i,
{
    if i < 0 || i >= p.len() {
        0
    } else {
        monomial_value(p[i], v) + terms_value_from(p, v, i + 1)
    }
}

/// What a polynomial stands for.
pub open spec fn polynomial_value(p: PolynomialModel, v: Valuation) -> int
    decreases p, 0nat,
{
    terms_value_from(p.monomials, v, 0)
}

/// What the first `n` factors of a shape stand for.
pub open spec fn shape_value_upto(s: Shape, v: Valuation, n: int) -> int
    decreases n,
{
    if n <= 0 || n > s.len() {
        1
    } else {
        shape_value_upto(s, v, n - 1) * pow(composite_value(s[n - 1].0, v), s[n - 1].1)
    }
}

/// What the first `n` terms stand for.
pub open spec fn terms_value_upto(p: Seq<MonomialModel>, v: Valuation, n: int) -> int
    decreases n,
{
    if n <= 0 || n > p.len() {
        0
    } else {
        terms_value_upto(p, v, n - 1) + monomial_value(p[n - 1], v)
    }
}

/// The product over the first factors times the product over the rest is
/// the product over all.
pub proof fn lemma_shape_value_upto_from(s: Shape, v: Valuation, n: int)
    requires
        0 <= n <= s.len(),
    ensures
        shape_value_upto(s, v, n) * shape_value_from(s, v, n) == shape_value(s, v),
    decreases n,
{
    if n > 0 {
        lemma_shape_value_upto_from(s, v, n - 1);
        let a = shape_value_upto(s, v, n - 1);
        let b = pow(composite_value(s[n - 1].0, v), s[n - 1].1);
        let c = shape_value_from(s, v, n);
        assert((a * b) * c == a * (b * c)) by (nonlinear_arith);
    } else {
        assert(1 * shape_value_from(s, v, 0) == shape_value_from(s, v, 0)) by (nonlinear_arith);
    }
}

/// The sum over the first terms plus the sum over the rest is the sum over
/// all.
pub proof fn lemma_terms_value_upto_from(p: Seq<MonomialModel>, v: Valuation, n: int)
    requires
        0 <= n <= p.len(),
    ensures
        terms_value_upto(p, v, n) + terms_value_from(p, v, n) == terms_value_from(p, v, 0),
    decreases n,
{
    if n > 0 {
        lemma_terms_value_upto_from(p, v, n - 1);
    }
}

/// Where a composite evaluates, it evaluates to what it stands for.
pub proof fn lemma_composite_evaluates_to_value(
    c: CompositeModel,
    values: Assignment,
    v: Valuation,
)
    requires
        extends(v, values),
        evaluate_composite(c, values).is_ok(),
    ensures
        evaluate_composite(c, values) == Ok::<int, EvalError>(composite_value(c, v)),
    decreases c, 0nat,
{
    match c {
        CompositeModel::Variable(id) => {
            assert(values.contains_key(id));
        },
        CompositeModel::Floor(l, r) => {
            lemma_polynomial_evaluates_to_value(l, values, v);
            lemma_polynomial_evaluates_to_value(r, values, v);
        },
        CompositeModel::Ceil(l, r) => {
            lemma_polynomial_evaluates_to_value(l, values, v);
            lemma_polynomial_evaluates_to_value(r, values, v);
        },
        CompositeModel::Min(l, r) => {
            lemma_polynomial_evaluates_to_value(l, values, v);
            lemma_polynomial_evaluates_to_value(r, values, v);
        },
        CompositeModel::Max(l, r) => {
            lemma_polynomial_evaluates_to_value(l, values, v);
            lemma_polynomial_evaluates_to_value(r, values, v);
        },
    }
}

/// Where the first `n` factors of a monomial evaluate, they evaluate, with
/// the coefficient, to what they stand for.
pub proof fn lemma_factors_evaluate_to_value(
    m: MonomialModel,
    values: Assignment,
    v: Valuation,
    n: int,
)
    requires
        extends(v, values),
        0 <= n <= m.powers.len(),
        evaluate_factors_upto(m, values, n).is_ok(),
    ensures
        evaluate_factors_upto(m, values, n) == Ok::<int, EvalError>(
            m.coefficient * shape_value_upto(m.powers, v, n),
        ),
    decreases m, n,
{
    if n > 0 {
        lemma_factors_evaluate_to_value(m, values, v, n - 1);
        lemma_composite_evaluates_to_value(m.powers[n - 1].0, values, v);
        let a = m.coefficient;
        let b = shape_value_upto(m.powers, v, n - 1);
        let c = pow(composite_value(m.powers[n - 1].0, v), m.powers[n - 1].1);
        assert((a * b) * c == a * (b * c)) by (nonlinear_arith);
    } else {
        assert(m.coefficient * 1 == m.coefficient) by (nonlinear_arith);
    }
}

/// Where a monomial evaluates, it evaluates to what it stands for.
pub proof fn lemma_monomial_evaluates_to_value(m: MonomialModel, values: Assignment, v: Valuation)
    requires
        extends(v, values),
        evaluate_monomial(m, values).is_ok(),
    ensures
        evaluate_monomial(m, values) == Ok::<int, EvalError>(monomial_value(m, v)),
    decreases m, m.powers.len() + 1,
{
    lemma_factors_evaluate_to_value(m, values, v, m.powers.len() as int);
    lemma_shape_value_upto_from(m.powers, v, m.powers.len() as int);
    let a = shape_value_upto(m.powers, v, m.powers.len() as int);
    assert(a * 1 == a) by (nonlinear_arith);
}

/// Where the first `n` terms of a polynomial evaluate, they evaluate to
/// what they stand for.
pub proof fn lemma_terms_evaluate_to_value(
    p: PolynomialModel,
    values: Assignment,
    v: Valuation,
    n: int,
)
    requires
        extends(v, values),
        0 <= n <= p.monomials.len(),
        evaluate_terms_upto(p, values, n).is_ok(),
    ensures
        evaluate_terms_upto(p, values, n) == Ok::<int, EvalError>(
            terms_value_upto(p.monomials, v, n),
        ),
    decreases p, n,
{
    if n > 0 {
        lemma_terms_evaluate_to_value(p, values, v, n - 1);
        lemma_monomial_evaluates_to_value(p.monomials[n - 1], values, v);
    }
}

/// Where a polynomial evaluates, it evaluates to what it stands for.
pub proof fn lemma_polynomial_evaluates_to_value(
    p: PolynomialModel,
    values: Assignment,
    v: Valuation,
)
    requires
        extends(v, values),
        evaluate_polynomial(p, values).is_ok(),
    ensures
        evaluate_polynomial(p, values) == Ok::<int, EvalError>(polynomial_value(p, v)),
    decreases p, p.monomials.len() + 1,
{
    lemma_terms_evaluate_to_value(p, values, v, p.monomials.len() as int);
    lemma_terms_value_upto_from(p.monomials, v, p.monomials.len() as int);
}

/// The weight of a shape that is what it stands for.
pub open spec fn value_weight(v: Valuation) -> spec_fn(Shape) -> int {
    |s: Shape| shape_value(s, v)
}

/// What terms stand for is the sum of their coefficients, each times what
/// its shape stands for.
pub proof fn lemma_terms_value_is_weighted_sum(p: Seq<MonomialModel>, v: Valuation, i: int)
    requires
        0 <= i <= p.len(),
    ensures
        terms_value_from(p, v, i) == weighted_sum_from(p, value_weight(v), i),
    decreases p.len() - i,
{
    if i < p.len() {
        lemma_terms_value_is_weighted_sum(p, v, i + 1);
        assert(value_weight(v)(p[i].powers) == shape_value(p[i].powers, v));
        assert(monomial_value(p[i], v) == p[i].coefficient * shape_value(p[i].powers, v));
    }
}

/// A sum of polynomials stands for the sum of what they stand for.
pub proof fn lemma_sum_value(p: PolynomialModel, q: PolynomialModel, v: Valuation)
    ensures
        polynomial_value(polynomial_sum(p, q), v) == polynomial_value(p, v) + polynomial_value(
            q,
            v,
        ),
{
    lemma_terms_value_is_weighted_sum(polynomial_sum(p, q).monomials, v, 0);
    lemma_terms_value_is_weighted_sum(p.monomials, v, 0);
    lemma_terms_value_is_weighted_sum(q.monomials, v, 0);
    lemma_weighted_sum_combine(p.monomials, q.monomials, 0, 0, false, value_weight(v));
}

/// A difference of polynomials stands for the difference of what they stand
/// for.
pub proof fn lemma_difference_value(p: PolynomialModel, q: PolynomialModel, v: Valuation)
    ensures
        polynomial_value(polynomial_difference(p, q), v) == polynomial_value(p, v)
            - polynomial_value(q, v),
{
    lemma_terms_value_is_weighted_sum(polynomial_difference(p, q).monomials, v, 0);
    lemma_terms_value_is_weighted_sum(p.monomials, v, 0);
    lemma_terms_value_is_weighted_sum(q.monomials, v, 0);
    lemma_weighted_sum_combine(p.monomials, q.monomials, 0, 0, true, value_weight(v));
}

/// A monomial taken as a polynomial stands for what the monomial stands
/// for.
pub proof fn lemma_monomial_polynomial_value(m: MonomialModel, v: Valuation)
    ensures
        polynomial_value(monomial_polynomial(m), v) == monomial_value(m, v),
{
    lemma_terms_value_is_weighted_sum(single_term(m), v, 0);
    lemma_weighted_sum_single(m, value_weight(v));
}

/// What a shape without its head stands for.
pub proof fn lemma_shape_value_shift(head: (CompositeModel, nat), rest: Shape, v: Valuation, i: int)
    requires
        0 <= i <= rest.len(),
    ensures
        shape_value_from(seq![head] + rest, v, i + 1) == shape_value_from(rest, v, i),
    decreases rest.len() - i,
{
    let all = seq![head] + rest;
    if i < rest.len() {
        assert(all[i + 1] == rest[i]);
        lemma_shape_value_shift(head, rest, v, i + 1);
    }
}

/// What a shape stands for is what its head stands for times what its rest
/// stands for.
pub proof fn lemma_shape_value_cons(head: (CompositeModel, nat), rest: Shape, v: Valuation)
    ensures
        shape_value_from(seq![head] + rest, v, 0) == pow(composite_value(head.0, v), head.1)
            * shape_value_from(rest, v, 0),
{
    let all = seq![head] + rest;
    assert(all[0] == head);
    lemma_shape_value_shift(head, rest, v, 0);
}

/// What is left of a shape from a position on stands for the product over
/// the factors from there on.
pub proof fn lemma_shape_value_skip(s: Shape, v: Valuation, i: int, k: int)
    requires
        0 <= i <= s.len(),
        0 <= k <= s.len() - i,
    ensures
        shape_value_from(s.skip(i), v, k) == shape_value_from(s, v, i + k),
    decreases s.len() - i - k,
{
    if k < s.len() - i {
        assert(s.skip(i)[k] == s[i + k]);
        lemma_shape_value_skip(s, v, i, k + 1);
    }
}

/// A product of shapes stands for the product of what they stand for, from
/// any positions on.
pub proof fn lemma_shape_product_value_from(a: Shape, b: Shape, i: int, j: int, v: Valuation)
    requires
        0 <= i <= a.len(),
        0 <= j <= b.len(),
    ensures
        shape_value_from(multiply_shapes_from(a, b, i, j), v, 0) == shape_value_from(a, v, i)
            * shape_value_from(b, v, j),
    decreases a.len() - i + b.len() - j,
{
    let x = shape_value_from(a, v, i);
    let y = shape_value_from(b, v, j);
    if i >= a.len() {
        lemma_shape_value_skip(b, v, j, 0);
        assert(1 * y == y) by (nonlinear_arith);
    } else if j >= b.len() {
        lemma_shape_value_skip(a, v, i, 0);
        assert(x * 1 == x) by (nonlinear_arith);
    } else {
        let pa = pow(composite_value(a[i].0, v), a[i].1);
        let pb = pow(composite_value(b[j].0, v), b[j].1);
        let ra = shape_value_from(a, v, i + 1);
        let rb = shape_value_from(b, v, j + 1);
        match compare_composites(a[i].0, b[j].0) {
            Comparison::Greater => {
                lemma_shape_product_value_from(a, b, i + 1, j, v);
                lemma_shape_value_cons(a[i], multiply_shapes_from(a, b, i + 1, j), v);
                assert(pa * (ra * y) == (pa * ra) * y) by (nonlinear_arith);
            },
            Comparison::Less => {
                lemma_shape_product_value_from(a, b, i, j + 1, v);
                lemma_shape_value_cons(b[j], multiply_shapes_from(a, b, i, j + 1), v);
                assert(pb * (x * rb) == x * (pb * rb)) by (nonlinear_arith);
            },
            Comparison::Equal => {
                lemma_compare_composites_equal(a[i].0, b[j].0);
                lemma_shape_product_value_from(a, b, i + 1, j + 1, v);
                lemma_shape_value_cons(
                    (a[i].0, a[i].1 + b[j].1),
                    multiply_shapes_from(a, b, i + 1, j + 1),
                    v,
                );
                lemma_pow_adds(composite_value(a[i].0, v), a[i].1, b[j].1);
                assert((pa * pb) * (ra * rb) == (pa * ra) * (pb * rb)) by (nonlinear_arith);
            },
        }
    }
}

/// A product of shapes stands for the product of what they stand for.
pub proof fn lemma_shape_product_value(a: Shape, b: Shape, v: Valuation)
    ensures
        shape_value(multiply_shapes(a, b), v) == shape_value(a, v) * shape_value(b, v),
{
    lemma_shape_product_value_from(a, b, 0, 0, v);
}

/// A product of monomials stands for the product of what they stand for.
pub proof fn lemma_monomial_product_value(a: MonomialModel, b: MonomialModel, v: Valuation)
    ensures
        monomial_value(monomial_product(a, b), v) == monomial_value(a, v) * monomial_value(b, v),
{
    lemma_shape_product_value(a.powers, b.powers, v);
    let x = shape_value(a.powers, v);
    let y = shape_value(b.powers, v);
    let c = a.coefficient;
    let d = b.coefficient;
    assert((c * d) * (x * y) == (c * x) * (d * y)) by (nonlinear_arith);
}

/// The product of the first `n` terms of a polynomial with a monomial stands
/// for the product of what they stand for.
pub proof fn lemma_times_monomial_value(p: PolynomialModel, m: MonomialModel, v: Valuation, n: int)
    requires
        0 <= n <= p.monomials.len(),
    ensures
        polynomial_value(times_monomial_upto(p, m, n), v) == terms_value_upto(p.monomials, v, n)
            * monomial_value(m, v),
    decreases n,
{
    let y = monomial_value(m, v);
    if n > 0 {
        lemma_times_monomial_value(p, m, v, n - 1);
        let t = monomial_product(p.monomials[n - 1], m);
        lemma_sum_value(times_monomial_upto(p, m, n - 1), monomial_polynomial(t), v);
        lemma_monomial_polynomial_value(t, v);
        lemma_monomial_product_value(p.monomials[n - 1], m, v);
        let a = terms_value_upto(p.monomials, v, n - 1);
        let b = monomial_value(p.monomials[n - 1], v);
        assert((a + b) * y == a * y + b * y) by (nonlinear_arith);
    } else {
        assert(0 * y == 0) by (nonlinear_arith);
    }
}

/// The products of a polynomial with the first `n` terms of another stand
/// for the product of what they stand for.
pub proof fn lemma_product_upto_value(p: PolynomialModel, q: PolynomialModel, v: Valuation, n: int)
    requires
        0 <= n <= p.monomials.len(),
    ensures
        polynomial_value(product_upto(p, q, n), v) == terms_value_upto(p.monomials, v, n)
            * polynomial_value(q, v),
    decreases n,
{
    let y = polynomial_value(q, v);
    if n > 0 {
        lemma_product_upto_value(p, q, v, n - 1);
        let m = p.monomials[n - 1];
        lemma_sum_value(product_upto(p, q, n - 1), polynomial_times_monomial(q, m), v);
        lemma_times_monomial_value(q, m, v, q.monomials.len() as int);
        lemma_terms_value_upto_from(q.monomials, v, q.monomials.len() as int);
        let a = terms_value_upto(p.monomials, v, n - 1);
        let b = monomial_value(m, v);
        assert((a + b) * y == a * y + y * b) by (nonlinear_arith);
    } else {
        assert(0 * y == 0) by (nonlinear_arith);
    }
}

/// A product of polynomials stands for the product of what they stand for.
pub proof fn lemma_product_value(p: PolynomialModel, q: PolynomialModel, v: Valuation)
    ensures
        polynomial_value(polynomial_product(p, q), v) == polynomial_value(p, v)
            * polynomial_value(q, v),
{
    lemma_product_upto_value(p, q, v, p.monomials.len() as int);
    lemma_terms_value_upto_from(p.monomials, v, p.monomials.len() as int);
}

/// A constant polynomial stands for its constant.
pub proof fn lemma_constant_value(p: PolynomialModel, v: Valuation)
    requires
        polynomial_is_constant(p),
    ensures
        polynomial_value(p, v) == constant_value(p),
{
    if p.monomials.len() == 1 {
        let m = p.monomials[0];
        assert(shape_value(m.powers, v) == 1);
        assert(m.coefficient * 1 == m.coefficient) by (nonlinear_arith);
        assert(terms_value_from(p.monomials, v, 1) == 0);
    }
}

/// What a reduced factor stands for.
pub open spec fn reduced_value(f: Reduced, v: Valuation) -> int {
    match f {
        Reduced::Value(x) => x,
        Reduced::Factor(c) => composite_value(c, v),
    }
}

/// An operation rebuilt on operands stands for the operation on what the
/// operands stand for.
pub proof fn lemma_rebuild_value(
    kind: CompositeModel,
    l: PolynomialModel,
    r: PolynomialModel,
    v: Valuation,
)
    requires
        !(kind is Variable),
        rebuild(kind, l, r).is_ok(),
    ensures
        reduced_value(rebuild(kind, l, r).unwrap(), v) == match kind {
            CompositeModel::Variable(_) => 0,
            CompositeModel::Floor(_, _) => floor_quotient(
                polynomial_value(l, v),
                polynomial_value(r, v),
            ),
            CompositeModel::Ceil(_, _) => ceil_quotient(
                polynomial_value(l, v),
                polynomial_value(r, v),
            ),
            CompositeModel::Min(_, _) => min_int(polynomial_value(l, v), polynomial_value(r, v)),
            CompositeModel::Max(_, _) => max_int(polynomial_value(l, v), polynomial_value(r, v)),
        },
{
    if polynomial_is_constant(l) && polynomial_is_constant(r) {
        lemma_constant_value(l, v);
        lemma_constant_value(r, v);
    }
}

/// A reduced composite stands for what the composite stands for.
pub proof fn lemma_reduce_composite_value(c: CompositeModel, values: Assignment, v: Valuation)
    requires
        extends(v, values),
        reduce_composite(c, values).is_ok(),
    ensures
        reduced_value(reduce_composite(c, values).unwrap(), v) == composite_value(c, v),
    decreases c, 0nat,
{
    match c {
        CompositeModel::Variable(id) => {
            if values.contains_key(id) {
                assert(v(id) == values[id]);
            }
        },
        CompositeModel::Floor(l, r) => {
            lemma_reduce_polynomial_value(l, values, v);
            lemma_reduce_polynomial_value(r, values, v);
            lemma_rebuild_value(
                c,
                reduce_polynomial(l, values).unwrap(),
                reduce_polynomial(r, values).unwrap(),
                v,
            );
        },
        CompositeModel::Ceil(l, r) => {
            lemma_reduce_polynomial_value(l, values, v);
            lemma_reduce_polynomial_value(r, values, v);
            lemma_rebuild_value(
                c,
                reduce_polynomial(l, values).unwrap(),
                reduce_polynomial(r, values).unwrap(),
                v,
            );
        },
        CompositeModel::Min(l, r) => {
            lemma_reduce_polynomial_value(l, values, v);
            lemma_reduce_polynomial_value(r, values, v);
            lemma_rebuild_value(
                c,
                reduce_polynomial(l, values).unwrap(),
                reduce_polynomial(r, values).unwrap(),
                v,
            );
        },
        CompositeModel::Max(l, r) => {
            lemma_reduce_polynomial_value(l, values, v);
            lemma_reduce_polynomial_value(r, values, v);
            lemma_rebuild_value(
                c,
                reduce_polynomial(l, values).unwrap(),
                reduce_polynomial(r, values).unwrap(),
                v,
            );
        },
    }
}

/// A monomial that has taken in a reduced factor stands for what it stood
/// for times what the factor stands for, raised to its power.
pub proof fn lemma_absorb_value(acc: MonomialModel, f: Reduced, e: nat, v: Valuation)
    requires
        absorb(acc, f, e).is_ok(),
    ensures
        monomial_value(absorb(acc, f, e).unwrap(), v) == monomial_value(acc, v) * pow(
            reduced_value(f, v),
            e,
        ),
{
    let a = acc.coefficient;
    let s = shape_value(acc.powers, v);
    let x = pow(reduced_value(f, v), e);
    match f {
        Reduced::Value(_) => {
            assert((a * x) * s == (a * s) * x) by (nonlinear_arith);
        },
        Reduced::Factor(c) => {
            let factor = MonomialModel { coefficient: 1, powers: seq![(c, e)] };
            lemma_monomial_product_value(acc, factor, v);
            assert(shape_value_from(factor.powers, v, 1) == 1);
            assert(1 * (x * 1) == x) by (nonlinear_arith);
        },
    }
}

/// A monomial with its first `n` factors reduced stands for its coefficient
/// times what these factors stand for.
pub proof fn lemma_reduce_factors_value(
    m: MonomialModel,
    values: Assignment,
    v: Valuation,
    n: int,
)
    requires
        extends(v, values),
        0 <= n <= m.powers.len(),
        reduce_factors_upto(m, values, n).is_ok(),
    ensures
        monomial_value(reduce_factors_upto(m, values, n).unwrap(), v) == m.coefficient
            * shape_value_upto(m.powers, v, n),
    decreases m, n,
{
    if n > 0 {
        lemma_reduce_factors_value(m, values, v, n - 1);
        lemma_reduce_composite_value(m.powers[n - 1].0, values, v);
        let acc = reduce_factors_upto(m, values, n - 1).unwrap();
        let f = reduce_composite(m.powers[n - 1].0, values).unwrap();
        lemma_absorb_value(acc, f, m.powers[n - 1].1, v);
        let a = m.coefficient;
        let b = shape_value_upto(m.powers, v, n - 1);
        let c = pow(composite_value(m.powers[n - 1].0, v), m.powers[n - 1].1);
        assert((a * b) * c == a * (b * c)) by (nonlinear_arith);
    } else {
        let r = reduce_factors_upto(m, values, 0).unwrap();
        assert(shape_value(r.powers, v) == 1);
    }
}

/// A reduced monomial stands for what the monomial stands for.
pub proof fn lemma_reduce_monomial_value(m: MonomialModel, values: Assignment, v: Valuation)
    requires
        extends(v, values),
        reduce_monomial_model(m, values).is_ok(),
    ensures
        monomial_value(reduce_monomial_model(m, values).unwrap(), v) == monomial_value(m, v),
    decreases m, m.powers.len() + 1,
{
    lemma_reduce_factors_value(m, values, v, m.powers.len() as int);
    lemma_shape_value_upto_from(m.powers, v, m.powers.len() as int);
    let a = shape_value_upto(m.powers, v, m.powers.len() as int);
    assert(a * 1 == a) by (nonlinear_arith);
}

/// The first `n` terms of a polynomial reduced stand for what these terms
/// stand for.
pub proof fn lemma_reduce_terms_value(
    p: PolynomialModel,
    values: Assignment,
    v: Valuation,
    n: int,
)
    requires
        extends(v, values),
        0 <= n <= p.monomials.len(),
        reduce_terms_upto(p, values, n).is_ok(),
    ensures
        polynomial_value(reduce_terms_upto(p, values, n).unwrap(), v) == terms_value_upto(
            p.monomials,
            v,
            n,
        ),
    decreases p, n,
{
    if n > 0 {
        lemma_reduce_terms_value(p, values, v, n - 1);
        lemma_reduce_monomial_value(p.monomials[n - 1], values, v);
        let acc = reduce_terms_upto(p, values, n - 1).unwrap();
        let m = reduce_monomial_model(p.monomials[n - 1], values).unwrap();
        lemma_sum_value(acc, monomial_polynomial(m), v);
        lemma_monomial_polynomial_value(m, v);
    }
}

/// A reduced polynomial stands for what the polynomial stands for, whatever
/// the variables without a value stand for.
pub proof fn lemma_reduce_polynomial_value(p: PolynomialModel, values: Assignment, v: Valuation)
    requires
        extends(v, values),
        reduce_polynomial(p, values).is_ok(),
    ensures
        polynomial_value(reduce_polynomial(p, values).unwrap(), v) == polynomial_value(p, v),
    decreases p, p.monomials.len() + 1,
{
    lemma_reduce_terms_value(p, values, v, p.monomials.len() as int);
    lemma_terms_value_upto_from(p.monomials, v, p.monomials.len() as int);
}

} // verus!
