//! What a polynomial denotes: the coefficient it gives to each shape. Sums
//! and differences act on coefficients pointwise, and a canonical
//! polynomial is determined by its coefficients.
use vstd::prelude::*;
use crate::algebra::{
    combine_terms_from, monomial_polynomial, polynomial_difference, polynomial_product,
    polynomial_sum, polynomial_times_monomial, product_upto, signed, signed_term, single_term,
    times_monomial_upto, };
use crate::monomial::monomial_product;
use crate::shape::multiply_shapes;
use crate::model::{
    compare_shapes, polynomial_wf, Comparison, MonomialModel, PolynomialModel, Shape,
};
use crate::order::{lemma_compare_shapes_equal, lemma_compare_shapes_reversed};

verus! {

/// The sum, over the terms from position `i` on, of the coefficient times
/// the weight of the shape.
pub open spec fn weighted_sum_from(p: Seq<MonomialModel>, w: spec_fn(Shape) -> int, i: int) -> int
    decreases p.len() - i,
{
    if i < 0 || i >= p.len() {
        0
    } else {
        p[i].coefficient * w(p[i].powers) + weighted_sum_from(p, w, i + 1)
    }
}

/// The sum, over the first `n` terms, of the coefficient times the weight of
/// the shape.
pub open spec fn weighted_sum_upto(p: Seq<MonomialModel>, w: spec_fn(Shape) -> int, n: int) -> int
    decreases n,
{
    if n <= 0 || n > p.len() {
        0
    } else {
        weighted_sum_upto(p, w, n - 1) + p[n - 1].coefficient * w(p[n - 1].powers)
    }
}

/// The weight that is one on the shape `s` and zero elsewhere.
pub open spec fn shape_indicator(s: Shape) -> spec_fn(Shape) -> int {
    |t: Shape|
        if t == s {
            1int
        } else {
            0int
        }
}

/// The coefficient that a polynomial gives to a shape: the sum of the
/// coefficients of its terms of that shape.
pub open spec fn coefficient_of(p: PolynomialModel, s: Shape) -> int {
    weighted_sum_from(p.monomials, shape_indicator(s), 0)
}

/// The weighted sum of a sequence without its head.
pub proof fn lemma_weighted_sum_shift(
    head: MonomialModel,
    rest: Seq<MonomialModel>,
    w: spec_fn(Shape) -> int,
    i: int,
)
    requires
        0 <= i <= rest.len(),
    ensures
        weighted_sum_from(seq![head] + rest, w, i + 1) == weighted_sum_from(rest, w, i),
    decreases rest.len() - i,
{
    let all = seq![head] + rest;
    if i < rest.len() {
        assert(all[i + 1] == rest[i]);
        lemma_weighted_sum_shift(head, rest, w, i + 1);
    }
}

/// The weighted sum of a sequence is that of its head plus that of its rest.
pub proof fn lemma_weighted_sum_cons(
    head: MonomialModel,
    rest: Seq<MonomialModel>,
    w: spec_fn(Shape) -> int,
)
    ensures
        weighted_sum_from(seq![head] + rest, w, 0) == head.coefficient * w(head.powers)
            + weighted_sum_from(rest, w, 0),
{
    let all = seq![head] + rest;
    assert(all[0] == head);
    lemma_weighted_sum_shift(head, rest, w, 0);
}

/// The weighted sum of the terms of a monomial taken as a polynomial.
pub proof fn lemma_weighted_sum_single(m: MonomialModel, w: spec_fn(Shape) -> int)
    ensures
        weighted_sum_from(single_term(m), w, 0) == m.coefficient * w(m.powers),
{
    if m.coefficient != 0 {
        lemma_weighted_sum_cons(m, Seq::empty(), w);
        assert(seq![m] + Seq::<MonomialModel>::empty() =~= seq![m]);
    } else {
        assert(0 * w(m.powers) == 0) by (nonlinear_arith);
    }
}

/// Summing from the front and summing up to the end give the same.
pub proof fn lemma_weighted_sum_upto_from(p: Seq<MonomialModel>, w: spec_fn(Shape) -> int, n: int)
    requires
        0 <= n <= p.len(),
    ensures
        weighted_sum_upto(p, w, n) + weighted_sum_from(p, w, n) == weighted_sum_from(p, w, 0),
    decreases n,
{
    if n > 0 {
        lemma_weighted_sum_upto_from(p, w, n - 1);
    }
}

/// A weighted sum is additive over sums and differences of polynomials,
/// from any positions on.
pub proof fn lemma_weighted_sum_combine(
    p: Seq<MonomialModel>,
    q: Seq<MonomialModel>,
    i: int,
    j: int,
    negate: bool,
    w: spec_fn(Shape) -> int,
)
    requires
        0 <= i <= p.len(),
        0 <= j <= q.len(),
    ensures
        weighted_sum_from(combine_terms_from(p, q, i, j, negate), w, 0) == weighted_sum_from(
            p,
            w,
            i,
        ) + signed(weighted_sum_from(q, w, j), negate),
    decreases p.len() - i + q.len() - j,
{
    let whole = combine_terms_from(p, q, i, j, negate);
    let take_left = i < p.len() && (j >= q.len() || compare_shapes(p[i].powers, q[j].powers)
        == Comparison::Greater);
    let take_right = j < q.len() && (i >= p.len() || compare_shapes(p[i].powers, q[j].powers)
        == Comparison::Less);
    if i >= p.len() && j >= q.len() {
        assert(whole.len() == 0);
    } else if take_left {
        let rest = combine_terms_from(p, q, i + 1, j, negate);
        assert(whole == seq![p[i]] + rest);
        lemma_weighted_sum_combine(p, q, i + 1, j, negate, w);
        lemma_weighted_sum_cons(p[i], rest, w);
    } else if take_right {
        let rest = combine_terms_from(p, q, i, j + 1, negate);
        let head = signed_term(q[j], negate);
        assert(whole == seq![head] + rest);
        lemma_weighted_sum_combine(p, q, i, j + 1, negate, w);
        lemma_weighted_sum_cons(head, rest, w);
        let c = q[j].coefficient;
        let x = w(q[j].powers);
        assert(head.coefficient * x == signed(c * x, negate)) by (nonlinear_arith)
            requires
                head.coefficient == signed(c, negate),
        ;
    } else {
        lemma_compare_shapes_equal(p[i].powers, q[j].powers);
        let a = p[i].coefficient;
        let b = q[j].coefficient;
        let x = w(p[i].powers);
        let head = MonomialModel { coefficient: a + signed(b, negate), powers: p[i].powers };
        let rest = combine_terms_from(p, q, i + 1, j + 1, negate);
        assert(whole == single_term(head) + rest);
        lemma_weighted_sum_combine(p, q, i + 1, j + 1, negate, w);
        assert(head.coefficient * x == a * x + signed(b * x, negate)) by (nonlinear_arith)
            requires
                head.coefficient == a + signed(b, negate),
        ;
        assert(w(q[j].powers) == x);
        if head.coefficient != 0 {
            lemma_weighted_sum_cons(head, rest, w);
        } else {
            assert(single_term(head) + rest =~= rest);
        }
    }
}

/// The coefficients of a sum are the sums of the coefficients.
pub proof fn lemma_sum_coefficients(p: PolynomialModel, q: PolynomialModel, s: Shape)
    ensures
        coefficient_of(polynomial_sum(p, q), s) == coefficient_of(p, s) + coefficient_of(q, s),
{
    lemma_weighted_sum_combine(p.monomials, q.monomials, 0, 0, false, shape_indicator(s));
}

/// The coefficients of a difference are the differences of the
/// coefficients.
pub proof fn lemma_difference_coefficients(p: PolynomialModel, q: PolynomialModel, s: Shape)
    ensures
        coefficient_of(polynomial_difference(p, q), s) == coefficient_of(p, s) - coefficient_of(
            q,
            s,
        ),
{
    lemma_weighted_sum_combine(p.monomials, q.monomials, 0, 0, true, shape_indicator(s));
}

/// A monomial taken as a polynomial gives its coefficient to its shape and
/// zero to every other.
pub proof fn lemma_monomial_coefficients(m: MonomialModel, s: Shape)
    ensures
        coefficient_of(monomial_polynomial(m), s) == if m.powers == s {
            m.coefficient
        } else {
            0
        },
{
    lemma_weighted_sum_single(m, shape_indicator(s));
}

/// From a position on, a polynomial gives a non-zero coefficient only to a
/// shape of one of its terms.
pub proof fn lemma_coefficient_support(p: Seq<MonomialModel>, s: Shape, i: int)
    requires
        0 <= i <= p.len(),
        weighted_sum_from(p, shape_indicator(s), i) != 0,
    ensures
        exists|k: int| i <= k < p.len() && p[k].powers == s,
    decreases p.len() - i,
{
    if i < p.len() {
        if p[i].powers != s {
            lemma_coefficient_support(p, s, i + 1);
        }
    }
}

/// From a position on, a canonical polynomial gives to the shape of its
/// term there the coefficient of that term.
pub proof fn lemma_leading_coefficient(p: Seq<MonomialModel>, i: int)
    requires
        polynomial_wf(PolynomialModel { monomials: p }),
        0 <= i < p.len(),
    ensures
        weighted_sum_from(p, shape_indicator(p[i].powers), i) == p[i].coefficient,
{
    let s = p[i].powers;
    let x = shape_indicator(s)(p[i].powers);
    assert(x == 1);
    assert(p[i].coefficient * x == p[i].coefficient) by (nonlinear_arith)
        requires
            x == 1,
    ;
    if weighted_sum_from(p, shape_indicator(s), i + 1) != 0 {
        lemma_coefficient_support(p, s, i + 1);
        let k = choose|k: int| i + 1 <= k < p.len() && p[k].powers == s;
        assert(compare_shapes(p[i].powers, p[k].powers) == Comparison::Greater);
        lemma_compare_shapes_equal(p[i].powers, p[k].powers);
    }
}

/// Two canonical polynomials that agree up to a position, and give the same
/// coefficients from there on, are the same.
pub proof fn lemma_agree_from(p: Seq<MonomialModel>, q: Seq<MonomialModel>, i: int)
    requires
        polynomial_wf(PolynomialModel { monomials: p }),
        polynomial_wf(PolynomialModel { monomials: q }),
        0 <= i <= p.len(),
        i <= q.len(),
        forall|k: int| 0 <= k < i ==> p[k] == q[k],
        forall|s: Shape|
            weighted_sum_from(p, shape_indicator(s), i) == weighted_sum_from(
                q,
                shape_indicator(s),
                i,
            ),
    ensures
        p == q,
    decreases p.len() - i,
{
    if i == p.len() {
        if i < q.len() {
            lemma_leading_coefficient(q, i);
            assert(weighted_sum_from(p, shape_indicator(q[i].powers), i) == 0);
        }
        assert(p =~= q);
    } else if i == q.len() {
        lemma_leading_coefficient(p, i);
        assert(weighted_sum_from(q, shape_indicator(p[i].powers), i) == 0);
    } else {
        let sp = p[i].powers;
        let sq = q[i].powers;
        lemma_leading_coefficient(p, i);
        lemma_leading_coefficient(q, i);
        lemma_compare_shapes_equal(sp, sq);
        lemma_compare_shapes_reversed(sp, sq);
        if sp != sq {
            // The greater of the two leading shapes gets a non-zero
            // coefficient from one side only.
            assert(weighted_sum_from(q, shape_indicator(sp), i) == p[i].coefficient);
            lemma_coefficient_support(q, sp, i);
            let k = choose|k: int| i <= k < q.len() && q[k].powers == sp;
            assert(compare_shapes(q[i].powers, q[k].powers) == Comparison::Greater);
            assert(weighted_sum_from(p, shape_indicator(sq), i) == q[i].coefficient);
            lemma_coefficient_support(p, sq, i);
            let l = choose|l: int| i <= l < p.len() && p[l].powers == sq;
            assert(compare_shapes(p[i].powers, p[l].powers) == Comparison::Greater);
        }
        assert(p[i] == q[i]);
        assert forall|s: Shape|
            weighted_sum_from(p, shape_indicator(s), i + 1) == weighted_sum_from(
                q,
                shape_indicator(s),
                i + 1,
            ) by {
            assert(weighted_sum_from(p, shape_indicator(s), i) == weighted_sum_from(
                q,
                shape_indicator(s),
                i,
            ));
        }
        lemma_agree_from(p, q, i + 1);
    }
}

/// A canonical polynomial is determined by the coefficients it gives: two
/// canonical polynomials that give every shape the same coefficient are the
/// same.
pub proof fn lemma_canonical_form_unique(p: PolynomialModel, q: PolynomialModel)
    requires
        polynomial_wf(p),
        polynomial_wf(q),
        forall|s: Shape| coefficient_of(p, s) == coefficient_of(q, s),
    ensures
        p == q,
{
    assert forall|s: Shape|
        weighted_sum_from(p.monomials, shape_indicator(s), 0) == weighted_sum_from(
            q.monomials,
            shape_indicator(s),
            0,
        ) by {
        assert(coefficient_of(p, s) == coefficient_of(q, s));
    }
    lemma_agree_from(p.monomials, q.monomials, 0);
}

/// The weight that is one on the shapes whose product with `t` is `s`, and
/// zero elsewhere.
pub open spec fn product_weight(t: Shape, s: Shape) -> spec_fn(Shape) -> int {
    |u: Shape|
        if multiply_shapes(u, t) == s {
            1int
        } else {
            0int
        }
}

/// The weight of a shape `t` in the product with `d`, seen at the shape
/// `s`: the sum of the coefficients of the terms of `d` whose product with
/// `t` has the shape `s`.
pub open spec fn times_weight(d: PolynomialModel, s: Shape) -> spec_fn(Shape) -> int {
    |t: Shape| weighted_sum_from(d.monomials, product_weight(t, s), 0)
}

/// The coefficients of the product of the first `n` terms of a polynomial
/// with a monomial.
pub proof fn lemma_times_monomial_upto_coefficients(
    d: PolynomialModel,
    m: MonomialModel,
    s: Shape,
    n: int,
)
    requires
        0 <= n <= d.monomials.len(),
    ensures
        coefficient_of(times_monomial_upto(d, m, n), s) == m.coefficient * weighted_sum_upto(
            d.monomials,
            product_weight(m.powers, s),
            n,
        ),
    decreases n,
{
    let w = product_weight(m.powers, s);
    if n == 0 {
        assert(m.coefficient * 0 == 0) by (nonlinear_arith);
    } else {
        lemma_times_monomial_upto_coefficients(d, m, s, n - 1);
        let t = monomial_product(d.monomials[n - 1], m);
        lemma_sum_coefficients(times_monomial_upto(d, m, n - 1), monomial_polynomial(t), s);
        lemma_monomial_coefficients(t, s);
        let a = weighted_sum_upto(d.monomials, w, n - 1);
        let b = d.monomials[n - 1].coefficient;
        let c = m.coefficient;
        let x = w(d.monomials[n - 1].powers);
        assert(c * (a + b * x) == c * a + (if x == 1 {
            b * c
        } else {
            0
        })) by (nonlinear_arith)
            requires
                x == 0 || x == 1,
        ;
    }
}

/// The coefficients of the product of a polynomial with a monomial.
pub proof fn lemma_times_monomial_coefficients(d: PolynomialModel, m: MonomialModel, s: Shape)
    ensures
        coefficient_of(polynomial_times_monomial(d, m), s) == m.coefficient * times_weight(d, s)(
            m.powers,
        ),
{
    lemma_times_monomial_upto_coefficients(d, m, s, d.monomials.len() as int);
    lemma_weighted_sum_upto_from(
        d.monomials,
        product_weight(m.powers, s),
        d.monomials.len() as int,
    );
}

/// The coefficients of the products of a polynomial with the first `n`
/// terms of another.
pub proof fn lemma_product_upto_coefficients(
    p: PolynomialModel,
    d: PolynomialModel,
    s: Shape,
    n: int,
)
    requires
        0 <= n <= p.monomials.len(),
    ensures
        coefficient_of(product_upto(p, d, n), s) == weighted_sum_upto(
            p.monomials,
            times_weight(d, s),
            n,
        ),
    decreases n,
{
    if n > 0 {
        lemma_product_upto_coefficients(p, d, s, n - 1);
        lemma_sum_coefficients(
            product_upto(p, d, n - 1),
            polynomial_times_monomial(d, p.monomials[n - 1]),
            s,
        );
        lemma_times_monomial_coefficients(d, p.monomials[n - 1], s);
    }
}

/// The coefficients of a product: a weighted sum over the terms of the left
/// factor.
pub proof fn lemma_product_coefficients(p: PolynomialModel, d: PolynomialModel, s: Shape)
    ensures
        coefficient_of(polynomial_product(p, d), s) == weighted_sum_from(
            p.monomials,
            times_weight(d, s),
            0,
        ),
{
    lemma_product_upto_coefficients(p, d, s, p.monomials.len() as int);
    lemma_weighted_sum_upto_from(p.monomials, times_weight(d, s), p.monomials.len() as int);
}

/// A weighted sum is additive in the weight.
pub proof fn lemma_weighted_sum_of_weights(
    p: Seq<MonomialModel>,
    w: spec_fn(Shape) -> int,
    w1: spec_fn(Shape) -> int,
    w2: spec_fn(Shape) -> int,
    i: int,
)
    requires
        0 <= i <= p.len(),
        forall|t: Shape| #[trigger] w(t) == w1(t) + w2(t),
    ensures
        weighted_sum_from(p, w, i) == weighted_sum_from(p, w1, i) + weighted_sum_from(p, w2, i),
    decreases p.len() - i,
{
    if i < p.len() {
        lemma_weighted_sum_of_weights(p, w, w1, w2, i + 1);
        let c = p[i].coefficient;
        let x = w1(p[i].powers);
        let y = w2(p[i].powers);
        assert(w(p[i].powers) == x + y);
        assert(c * (x + y) == c * x + c * y) by (nonlinear_arith);
    }
}

/// A weighted sum depends on the weights of the shapes of the terms only.
pub proof fn lemma_weighted_sum_same_weights(
    p: Seq<MonomialModel>,
    w1: spec_fn(Shape) -> int,
    w2: spec_fn(Shape) -> int,
    i: int,
)
    requires
        0 <= i <= p.len(),
        forall|k: int| i <= k < p.len() ==> w1(#[trigger] p[k].powers) == w2(p[k].powers),
    ensures
        weighted_sum_from(p, w1, i) == weighted_sum_from(p, w2, i),
    decreases p.len() - i,
{
    if i < p.len() {
        lemma_weighted_sum_same_weights(p, w1, w2, i + 1);
        assert(w1(p[i].powers) == w2(p[i].powers));
    }
}

/// A weighted sum with every weight multiplied by a factor is the sum
/// multiplied by the factor.
pub proof fn lemma_weighted_sum_scaled(
    p: Seq<MonomialModel>,
    w: spec_fn(Shape) -> int,
    scaled: spec_fn(Shape) -> int,
    factor: int,
    i: int,
)
    requires
        0 <= i <= p.len(),
        forall|t: Shape| #[trigger] scaled(t) == factor * w(t),
    ensures
        weighted_sum_from(p, scaled, i) == factor * weighted_sum_from(p, w, i),
    decreases p.len() - i,
{
    if i < p.len() {
        lemma_weighted_sum_scaled(p, w, scaled, factor, i + 1);
        let c = p[i].coefficient;
        let x = w(p[i].powers);
        let rest = weighted_sum_from(p, w, i + 1);
        assert(scaled(p[i].powers) == factor * x);
        assert(c * (factor * x) + factor * rest == factor * (c * x + rest)) by (nonlinear_arith);
    } else {
        assert(factor * 0 == 0) by (nonlinear_arith);
    }
}

/// A weight of pairs of shapes with its first shape fixed.
pub open spec fn with_first(f: spec_fn(Shape, Shape) -> int, t: Shape) -> spec_fn(Shape) -> int {
    |u: Shape| f(t, u)
}

/// A weight of pairs of shapes with its second shape fixed.
pub open spec fn with_second(f: spec_fn(Shape, Shape) -> int, u: Shape) -> spec_fn(Shape) -> int {
    |t: Shape| f(t, u)
}

/// The weight of a shape that is the sum over the terms of `q` of the
/// weight of the pair.
pub open spec fn summed_over_second(q: Seq<MonomialModel>, f: spec_fn(Shape, Shape) -> int) -> spec_fn(
    Shape,
) -> int {
    |t: Shape| weighted_sum_from(q, with_first(f, t), 0)
}

/// The weight of a shape that is the sum over the terms of `p` from `i` on
/// of the weight of the pair.
pub open spec fn summed_over_first(
    p: Seq<MonomialModel>,
    f: spec_fn(Shape, Shape) -> int,
    i: int,
) -> spec_fn(Shape) -> int {
    |u: Shape| weighted_sum_from(p, with_second(f, u), i)
}

/// A sum over the terms of two polynomials can be taken in either order.
pub proof fn lemma_weighted_sums_exchange(
    p: Seq<MonomialModel>,
    q: Seq<MonomialModel>,
    f: spec_fn(Shape, Shape) -> int,
    i: int,
)
    requires
        0 <= i <= p.len(),
    ensures
        weighted_sum_from(p, summed_over_second(q, f), i) == weighted_sum_from(
            q,
            summed_over_first(p, f, i),
            0,
        ),
    decreases p.len() - i,
{
    let outer = summed_over_first(p, f, i);
    if i < p.len() {
        lemma_weighted_sums_exchange(p, q, f, i + 1);
        let t = p[i].powers;
        let c = p[i].coefficient;
        let head = with_first(f, t);
        let scaled = |u: Shape| c * head(u);
        let rest = summed_over_first(p, f, i + 1);
        assert forall|u: Shape| #[trigger] outer(u) == scaled(u) + rest(u) by {
            assert(with_second(f, u)(t) == head(u));
        }
        lemma_weighted_sum_of_weights(q, outer, scaled, rest, 0);
        lemma_weighted_sum_scaled(q, head, scaled, c, 0);
        assert(summed_over_second(q, f)(t) == weighted_sum_from(q, head, 0));
    } else {
        let zero = |u: Shape| 0int;
        lemma_weighted_sum_same_weights(q, outer, zero, 0);
        lemma_weighted_sum_scaled(q, zero, zero, 0, 0);
    }
}

} // verus!
