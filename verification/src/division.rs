//! Long division of polynomials: its steps, that they end, and that they
//! keep polynomials canonical.
use vstd::prelude::*;
use crate::algebra::{
    lemma_combine_terms_wf, lemma_times_monomial_fits_prefix, lemma_times_monomial_wf,
    monomial_polynomial, polynomial_difference, polynomial_sum, polynomial_times_monomial,
    single_term, terms_fit, times_monomial_fits, zero_polynomial,
};
use crate::coefficients::{
    coefficient_of, lemma_coefficient_support, lemma_difference_coefficients,
    lemma_leading_coefficient, lemma_times_monomial_coefficients, product_weight,
    shape_indicator, weighted_sum_from,
};
use crate::factors::lemma_quotient_times_divisor;
use crate::integer::{exact_quotient, truncated_remainder};
use crate::model::{
    compare_shapes, polynomial_wf, Comparison, CompositeModel, MonomialModel, PolynomialModel,
    Shape,
};
use crate::monomial::{monomial_fits, monomial_product, monomial_quotient};
use crate::order::lemma_compare_shapes_equal;
use crate::ranks::{
    covers, lemma_covers_product, lemma_covers_quotient, lemma_product_keeps_order,
    lemma_rank_grows, rank,
};
use crate::shape::{
    divide_shapes, lemma_divide_shapes_wf, lemma_multiply_shapes_wf, multiply_shapes,
    shape_divides, shape_fits,
};

verus! {

/// One step of the division by `d`: the leading term of the remainder is
/// divided by the leading term of `d`, the result joins the quotient, and
/// its product with `d` leaves the remainder. `None` where the remainder
/// is zero, `d` is zero, the leading terms have no exact quotient, or the
/// step leaves the machine's range.
pub open spec fn division_step(
    quotient: PolynomialModel,
    remainder: PolynomialModel,
    d: PolynomialModel,
) -> Option<(PolynomialModel, PolynomialModel)> {
    if remainder.monomials.len() == 0 || d.monomials.len() == 0 {
        None
    } else {
        match monomial_quotient(remainder.monomials[0], d.monomials[0]) {
            None => None,
            Some(x) => {
                let next_quotient = polynomial_sum(quotient, monomial_polynomial(x));
                let next_remainder = polynomial_difference(
                    remainder,
                    polynomial_times_monomial(d, x),
                );
                if terms_fit(next_quotient.monomials) && times_monomial_fits(d, x) && terms_fit(
                    next_remainder.monomials,
                ) {
                    Some((next_quotient, next_remainder))
                } else {
                    None
                }
            },
        }
    }
}

/// A step of the division keeps quotient and remainder canonical.
pub proof fn lemma_division_step_wf(
    quotient: PolynomialModel,
    remainder: PolynomialModel,
    d: PolynomialModel,
)
    requires
        polynomial_wf(quotient),
        polynomial_wf(remainder),
        polynomial_wf(d),
    ensures
        match division_step(quotient, remainder, d) {
            Some((q, r)) => polynomial_wf(q) && polynomial_wf(r),
            None => true,
        },
{
    if remainder.monomials.len() > 0 && d.monomials.len() > 0 {
        match monomial_quotient(remainder.monomials[0], d.monomials[0]) {
            None => {},
            Some(x) => {
                lemma_divide_shapes_wf(
                    remainder.monomials[0].powers,
                    d.monomials[0].powers,
                    0,
                );
                lemma_combine_terms_wf(quotient.monomials, single_term(x), 0, 0, false);
                lemma_times_monomial_wf(d, x, d.monomials.len() as int);
                lemma_combine_terms_wf(
                    remainder.monomials,
                    polynomial_times_monomial(d, x).monomials,
                    0,
                    0,
                    true,
                );
            },
        }
    }
}

/// The composites of a shape.
pub open spec fn shape_composites(s: Shape) -> Seq<CompositeModel> {
    Seq::new(s.len(), |k: int| s[k].0)
}

/// The composites of the first `n` terms.
pub open spec fn terms_composites_upto(p: Seq<MonomialModel>, n: int) -> Seq<CompositeModel>
    decreases n,
{
    if n <= 0 || n > p.len() {
        Seq::empty()
    } else {
        terms_composites_upto(p, n - 1) + shape_composites(p[n - 1].powers)
    }
}

/// The composites in play in the division of `p` by `d`: those of the terms
/// of both.
pub open spec fn composites_in_play(p: PolynomialModel, d: PolynomialModel) -> Seq<
    CompositeModel,
> {
    terms_composites_upto(p.monomials, p.monomials.len() as int) + terms_composites_upto(
        d.monomials,
        d.monomials.len() as int,
    )
}

/// Whether a polynomial is canonical, with powers of the exponent type and
/// composites among `u`.
pub open spec fn confined(u: Seq<CompositeModel>, p: PolynomialModel) -> bool {
    &&& polynomial_wf(p)
    &&& forall|i: int|
        0 <= i < p.monomials.len() ==> shape_fits((#[trigger] p.monomials[i]).powers) && covers(
            u,
            p.monomials[i].powers,
        )
}

/// What is left to divide: nothing for the zero polynomial, else one more
/// than the rank of the leading shape.
pub open spec fn division_measure(remainder: PolynomialModel, u: Seq<CompositeModel>) -> int {
    if remainder.monomials.len() == 0 {
        0
    } else {
        1 + rank(remainder.monomials[0].powers, u)
    }
}

/// The composites of a term are among those of the terms up to it.
pub proof fn lemma_terms_composites_cover(p: Seq<MonomialModel>, n: int, i: int)
    requires
        0 <= i < n <= p.len(),
    ensures
        covers(terms_composites_upto(p, n), p[i].powers),
    decreases n,
{
    let all = terms_composites_upto(p, n);
    let before = terms_composites_upto(p, n - 1);
    let last = shape_composites(p[n - 1].powers);
    if i < n - 1 {
        lemma_terms_composites_cover(p, n - 1, i);
        assert forall|k: int| 0 <= k < p[i].powers.len() implies all.contains(
            (#[trigger] p[i].powers[k]).0,
        ) by {
            let c = p[i].powers[k].0;
            assert(before.contains(c));
            let x = choose|x: int| 0 <= x < before.len() && before[x] == c;
            assert(all[x] == c);
        }
    } else {
        assert forall|k: int| 0 <= k < p[i].powers.len() implies all.contains(
            (#[trigger] p[i].powers[k]).0,
        ) by {
            assert(all[before.len() + k] == last[k]);
        }
    }
}

/// Composites among `u` are among `u` and more.
pub proof fn lemma_covers_more(u: Seq<CompositeModel>, v: Seq<CompositeModel>, s: Shape)
    requires
        covers(u, s) || covers(v, s),
    ensures
        covers(u + v, s),
{
    assert forall|k: int| 0 <= k < s.len() implies (u + v).contains((#[trigger] s[k]).0) by {
        let c = s[k].0;
        if covers(u, s) {
            let x = choose|x: int| 0 <= x < u.len() && u[x] == c;
            assert((u + v)[x] == c);
        } else {
            let x = choose|x: int| 0 <= x < v.len() && v[x] == c;
            assert((u + v)[u.len() + x] == c);
        }
    }
}

/// The composites in play cover both polynomials.
pub proof fn lemma_in_play_covers(p: PolynomialModel, d: PolynomialModel)
    ensures
        forall|i: int|
            0 <= i < p.monomials.len() ==> covers(
                composites_in_play(p, d),
                (#[trigger] p.monomials[i]).powers,
            ),
        forall|i: int|
            0 <= i < d.monomials.len() ==> covers(
                composites_in_play(p, d),
                (#[trigger] d.monomials[i]).powers,
            ),
{
    let up = terms_composites_upto(p.monomials, p.monomials.len() as int);
    let ud = terms_composites_upto(d.monomials, d.monomials.len() as int);
    assert forall|i: int| 0 <= i < p.monomials.len() implies covers(
        composites_in_play(p, d),
        (#[trigger] p.monomials[i]).powers,
    ) by {
        lemma_terms_composites_cover(p.monomials, p.monomials.len() as int, i);
        lemma_covers_more(up, ud, p.monomials[i].powers);
    }
    assert forall|i: int| 0 <= i < d.monomials.len() implies covers(
        composites_in_play(p, d),
        (#[trigger] d.monomials[i]).powers,
    ) by {
        lemma_terms_composites_cover(d.monomials, d.monomials.len() as int, i);
        lemma_covers_more(up, ud, d.monomials[i].powers);
    }
}

/// A weighted sum that is not zero has a term whose shape has a weight that
/// is not zero.
pub proof fn lemma_weighted_sum_support(
    p: Seq<MonomialModel>,
    w: spec_fn(Shape) -> int,
    i: int,
)
    requires
        0 <= i <= p.len(),
        weighted_sum_from(p, w, i) != 0,
    ensures
        exists|k: int| i <= k < p.len() && w(p[k].powers) != 0,
    decreases p.len() - i,
{
    if i < p.len() {
        if w(p[i].powers) == 0 {
            assert(p[i].coefficient * w(p[i].powers) == 0) by (nonlinear_arith)
                requires
                    w(p[i].powers) == 0,
            ;
            lemma_weighted_sum_support(p, w, i + 1);
        }
    }
}

/// A weighted sum from a position on is the sum from a later position on
/// where the shapes in between have the weight zero.
pub proof fn lemma_weighted_sum_skips(
    p: Seq<MonomialModel>,
    w: spec_fn(Shape) -> int,
    i: int,
    k: int,
)
    requires
        0 <= i <= k <= p.len(),
        forall|j: int| i <= j < k ==> w(p[j].powers) == 0,
    ensures
        weighted_sum_from(p, w, i) == weighted_sum_from(p, w, k),
    decreases k - i,
{
    if i < k {
        lemma_weighted_sum_skips(p, w, i + 1, k);
        assert(p[i].coefficient * w(p[i].powers) == 0) by (nonlinear_arith)
            requires
                w(p[i].powers) == 0,
        ;
    }
}

/// A canonical polynomial gives to the shape of each of its terms the
/// coefficient of that term.
pub proof fn lemma_coefficient_of_term(p: PolynomialModel, i: int)
    requires
        polynomial_wf(p),
        0 <= i < p.monomials.len(),
    ensures
        coefficient_of(p, p.monomials[i].powers) == p.monomials[i].coefficient,
{
    let s = p.monomials[i].powers;
    assert forall|j: int| 0 <= j < i implies shape_indicator(s)(p.monomials[j].powers) == 0 by {
        assert(compare_shapes(p.monomials[j].powers, p.monomials[i].powers)
            == Comparison::Greater);
        lemma_compare_shapes_equal(p.monomials[j].powers, p.monomials[i].powers);
    }
    lemma_weighted_sum_skips(p.monomials, shape_indicator(s), 0, i);
    lemma_leading_coefficient(p.monomials, i);
}

/// Where the product of a polynomial and a monomial fits, the product of
/// each of its terms and the monomial does.
pub proof fn lemma_each_product_fits(d: PolynomialModel, x: MonomialModel, k: int)
    requires
        times_monomial_fits(d, x),
        0 <= k < d.monomials.len(),
    ensures
        monomial_fits(monomial_product(d.monomials[k], x)),
{
    lemma_times_monomial_fits_prefix(d, x, k + 1, d.monomials.len() as int);
}

/// An exact quotient times the divisor is the dividend.
pub proof fn lemma_exact_quotient_times_divisor(a: int, b: int)
    requires
        exact_quotient(a, b).is_some(),
    ensures
        a == b * exact_quotient(a, b).unwrap(),
{
    assert(truncated_remainder(a, b) == 0);
}

/// What a step of the division works with: the monomial that joins the
/// quotient and its products with the terms of the divisor.
pub open spec fn step_term(remainder: PolynomialModel, d: PolynomialModel) -> MonomialModel {
    monomial_quotient(remainder.monomials[0], d.monomials[0]).unwrap()
}

/// In a step of the division, the product of the new term of the quotient
/// with the leading term of the divisor has the leading shape of the
/// remainder, and its products with the other terms have shapes below it.
/// All of them are canonical, with powers of the exponent type and
/// composites among `u`.
pub proof fn lemma_step_products(
    remainder: PolynomialModel,
    d: PolynomialModel,
    u: Seq<CompositeModel>,
    k: int,
)
    requires
        confined(u, remainder),
        confined(u, d),
        remainder.monomials.len() > 0,
        d.monomials.len() > 0,
        monomial_quotient(remainder.monomials[0], d.monomials[0]).is_some(),
        times_monomial_fits(d, step_term(remainder, d)),
        0 <= k < d.monomials.len(),
    ensures
        crate::model::shape_wf(
            multiply_shapes(d.monomials[k].powers, step_term(remainder, d).powers),
        ),
        shape_fits(multiply_shapes(d.monomials[k].powers, step_term(remainder, d).powers)),
        covers(u, multiply_shapes(d.monomials[k].powers, step_term(remainder, d).powers)),
        k == 0 ==> multiply_shapes(d.monomials[k].powers, step_term(remainder, d).powers)
            == remainder.monomials[0].powers,
        k > 0 ==> compare_shapes(
            remainder.monomials[0].powers,
            multiply_shapes(d.monomials[k].powers, step_term(remainder, d).powers),
        ) == Comparison::Greater,
{
    let lead = remainder.monomials[0].powers;
    let top = d.monomials[0].powers;
    let x = step_term(remainder, d);
    assert(x.powers == divide_shapes(lead, top));
    assert(shape_divides(top, lead));
    lemma_divide_shapes_wf(lead, top, 0);
    lemma_covers_quotient(u, lead, top, 0);
    lemma_quotient_times_divisor(lead, top);
    lemma_each_product_fits(d, x, k);
    lemma_each_product_fits(d, x, 0);
    lemma_multiply_shapes_wf(d.monomials[k].powers, x.powers, 0, 0);
    lemma_covers_product(u, d.monomials[k].powers, x.powers, 0, 0);
    if k > 0 {
        assert(compare_shapes(top, d.monomials[k].powers) == Comparison::Greater);
        lemma_product_keeps_order(top, d.monomials[k].powers, x.powers, u);
    }
}

/// In a step of the division, the product of the divisor and the new term
/// of the quotient gives the leading shape of the remainder the coefficient
/// that the remainder gives it.
pub proof fn lemma_step_cancels(remainder: PolynomialModel, d: PolynomialModel, u: Seq<CompositeModel>)
    requires
        confined(u, remainder),
        confined(u, d),
        remainder.monomials.len() > 0,
        d.monomials.len() > 0,
        monomial_quotient(remainder.monomials[0], d.monomials[0]).is_some(),
        times_monomial_fits(d, step_term(remainder, d)),
    ensures
        coefficient_of(
            polynomial_times_monomial(d, step_term(remainder, d)),
            remainder.monomials[0].powers,
        ) == remainder.monomials[0].coefficient,
{
    let lead = remainder.monomials[0].powers;
    let x = step_term(remainder, d);
    let w = product_weight(x.powers, lead);
    lemma_times_monomial_coefficients(d, x, lead);
    assert forall|j: int| 1 <= j < d.monomials.len() implies w(d.monomials[j].powers) == 0 by {
        lemma_step_products(remainder, d, u, j);
        lemma_compare_shapes_equal(lead, multiply_shapes(d.monomials[j].powers, x.powers));
    }
    lemma_weighted_sum_skips(d.monomials, w, 1, d.monomials.len() as int);
    lemma_step_products(remainder, d, u, 0);
    assert(w(d.monomials[0].powers) == 1);
    lemma_exact_quotient_times_divisor(
        remainder.monomials[0].coefficient,
        d.monomials[0].coefficient,
    );
    let a = d.monomials[0].coefficient;
    let c = x.coefficient;
    let one = w(d.monomials[0].powers);
    assert(c * (a * one + 0) == a * c) by (nonlinear_arith)
        requires
            one == 1,
    ;
}

/// A step of the division leaves a canonical remainder, with powers of the
/// exponent type and composites among `u`, that is zero or has a leading
/// shape below that of the remainder before: what is left to divide
/// decreases.
pub proof fn lemma_division_step_decreases(
    quotient: PolynomialModel,
    remainder: PolynomialModel,
    d: PolynomialModel,
    u: Seq<CompositeModel>,
)
    requires
        confined(u, remainder),
        confined(u, d),
        division_step(quotient, remainder, d).is_some(),
    ensures
        confined(u, division_step(quotient, remainder, d).unwrap().1),
        0 <= division_measure(division_step(quotient, remainder, d).unwrap().1, u)
            < division_measure(remainder, u),
{
    let lead = remainder.monomials[0].powers;
    let x = step_term(remainder, d);
    let t = polynomial_times_monomial(d, x);
    let r = division_step(quotient, remainder, d).unwrap().1;
    assert(r == polynomial_difference(remainder, t));
    lemma_divide_shapes_wf(lead, d.monomials[0].powers, 0);
    lemma_times_monomial_wf(d, x, d.monomials.len() as int);
    lemma_combine_terms_wf(remainder.monomials, t.monomials, 0, 0, true);
    // Every shape of the new remainder is a shape of the old one, or of a
    // product of the new term with a term of the divisor.
    assert forall|i: int| 0 <= i < r.monomials.len() implies shape_fits(
        (#[trigger] r.monomials[i]).powers,
    ) && covers(u, r.monomials[i].powers) && compare_shapes(lead, r.monomials[i].powers)
        == Comparison::Greater by {
        let s = r.monomials[i].powers;
        lemma_coefficient_of_term(r, i);
        lemma_difference_coefficients(remainder, t, s);
        lemma_step_cancels(remainder, d, u);
        lemma_coefficient_of_term(remainder, 0);
        lemma_compare_shapes_equal(lead, s);
        if coefficient_of(remainder, s) != 0 {
            lemma_coefficient_support(remainder.monomials, s, 0);
            let k = choose|k: int| 0 <= k < remainder.monomials.len() && remainder.monomials[k].powers == s;
            if k > 0 {
                assert(compare_shapes(remainder.monomials[0].powers, remainder.monomials[k].powers)
                    == Comparison::Greater);
            }
            assert(shape_fits(remainder.monomials[k].powers));
        }
        if coefficient_of(t, s) != 0 {
            lemma_times_monomial_coefficients(d, x, s);
            let w = product_weight(x.powers, s);
            let sum = weighted_sum_from(d.monomials, w, 0);
            assert(sum != 0) by (nonlinear_arith)
                requires
                    x.coefficient * sum != 0,
            ;
            lemma_weighted_sum_support(d.monomials, w, 0);
            let k = choose|k: int| 0 <= k < d.monomials.len() && w(d.monomials[k].powers) != 0;
            lemma_step_products(remainder, d, u, k);
        }
    }
    lemma_less_to_divide(remainder, r, u);
}

/// A canonical polynomial whose shapes all stand below the leading shape of
/// another leaves less to divide.
proof fn lemma_less_to_divide(remainder: PolynomialModel, r: PolynomialModel, u: Seq<CompositeModel>)
    requires
        confined(u, remainder),
        remainder.monomials.len() > 0,
        polynomial_wf(r),
        forall|i: int|
            0 <= i < r.monomials.len() ==> shape_fits((#[trigger] r.monomials[i]).powers)
                && covers(u, r.monomials[i].powers) && compare_shapes(
                remainder.monomials[0].powers,
                r.monomials[i].powers,
            ) == Comparison::Greater,
    ensures
        confined(u, r),
        0 <= division_measure(r, u) < division_measure(remainder, u),
{
    if r.monomials.len() > 0 {
        assert(shape_fits(r.monomials[0].powers));
        assert(shape_fits(remainder.monomials[0].powers));
        lemma_rank_grows(remainder.monomials[0].powers, r.monomials[0].powers, u);
    } else {
        assert(shape_fits(remainder.monomials[0].powers));
        crate::ranks::lemma_rank_bound(remainder.monomials[0].powers, u, 0);
    }
}

/// The quotient and the remainder when the division has taken its steps:
/// steps are taken as long as one can be. The polynomials must be
/// canonical, with powers of the exponent type and composites among `u`;
/// each step then leaves less to divide, so that the steps end.
pub open spec fn division_steps(
    quotient: PolynomialModel,
    remainder: PolynomialModel,
    d: PolynomialModel,
    u: Seq<CompositeModel>,
) -> (PolynomialModel, PolynomialModel)
    decreases division_measure(remainder, u),
{
    if confined(u, remainder) && confined(u, d) {
        match division_step(quotient, remainder, d) {
            None => (quotient, remainder),
            Some((q, r)) => {
                proof {
                    lemma_division_step_decreases(quotient, remainder, d, u);
                }
                division_steps(q, r, d, u)
            },
        }
    } else {
        (quotient, remainder)
    }
}

/// Long division of `p` by `d` under the canonical order: steps are taken
/// from quotient zero and remainder `p` until one fails.
pub open spec fn polynomial_division(p: PolynomialModel, d: PolynomialModel) -> (
    PolynomialModel,
    PolynomialModel,
) {
    division_steps(zero_polynomial(), p, d, composites_in_play(p, d))
}

/// The quotient of `p` by `d` where the division leaves no remainder.
pub open spec fn polynomial_quotient(p: PolynomialModel, d: PolynomialModel) -> Option<
    PolynomialModel,
> {
    if polynomial_division(p, d).1.monomials.len() == 0 {
        Some(polynomial_division(p, d).0)
    } else {
        None
    }
}

/// Division keeps quotient and remainder canonical.
pub proof fn lemma_division_steps_wf(
    quotient: PolynomialModel,
    remainder: PolynomialModel,
    d: PolynomialModel,
    u: Seq<CompositeModel>,
)
    requires
        polynomial_wf(quotient),
        polynomial_wf(remainder),
        polynomial_wf(d),
    ensures
        polynomial_wf(division_steps(quotient, remainder, d, u).0),
        polynomial_wf(division_steps(quotient, remainder, d, u).1),
    decreases division_measure(remainder, u),
{
    if confined(u, remainder) && confined(u, d) {
        lemma_division_step_wf(quotient, remainder, d);
        match division_step(quotient, remainder, d) {
            None => {},
            Some((q, r)) => {
                lemma_division_step_decreases(quotient, remainder, d, u);
                lemma_division_steps_wf(q, r, d, u);
            },
        }
    }
}

/// A canonical polynomial of the machine's types is confined to the
/// composites in play in its division.
pub proof fn lemma_division_starts_confined(p: PolynomialModel, d: PolynomialModel)
    requires
        polynomial_wf(p),
        polynomial_wf(d),
        forall|i: int| 0 <= i < p.monomials.len() ==> shape_fits((#[trigger] p.monomials[i]).powers),
        forall|i: int| 0 <= i < d.monomials.len() ==> shape_fits((#[trigger] d.monomials[i]).powers),
    ensures
        confined(composites_in_play(p, d), p),
        confined(composites_in_play(p, d), d),
{
    lemma_in_play_covers(p, d);
}

} // verus!
