//! Laws of the library: the canonical order is total, canonical forms are
//! unique, and sums, differences, products and quotients of canonical
//! polynomials obey the laws of arithmetic.
use vstd::prelude::*;
use crate::algebra::{
    lemma_combine_terms_wf, lemma_product_wf, monomial_polynomial, polynomial_difference,
    polynomial_product, polynomial_sum, polynomial_times_monomial, zero_polynomial,
};
use crate::division::{
    composites_in_play, confined, division_measure, division_step, division_steps,
    lemma_division_step_decreases, lemma_division_steps_wf, polynomial_division,
    polynomial_quotient,
};

use crate::coefficients::{
    coefficient_of, lemma_canonical_form_unique, lemma_difference_coefficients,
    lemma_product_coefficients, lemma_sum_coefficients, lemma_times_monomial_coefficients,
    lemma_weighted_sum_combine, lemma_weighted_sum_of_weights, lemma_weighted_sum_same_weights,
    lemma_weighted_sum_single, lemma_weighted_sums_exchange, product_weight,
    summed_over_first, summed_over_second, times_weight, with_first, with_second,
};
use crate::coefficients::{
    lemma_coefficient_support, lemma_monomial_coefficients, lemma_weighted_sum_upto_from,
    shape_indicator, weighted_sum_upto,
};
use crate::division::{lemma_coefficient_of_term, lemma_weighted_sum_skips};
use crate::factors::lemma_product_commutes;
use crate::shape::multiply_shapes;
use crate::deduction::{deduce, DeductionFailure, Equations};
use crate::evaluation::{evaluate_polynomial, Assignment, EvalError};
use crate::meaning::{
    extends, lemma_difference_value, lemma_polynomial_evaluates_to_value, lemma_product_value,
    lemma_reduce_polynomial_value, lemma_sum_value, polynomial_value, Valuation,
};
use crate::reduction::reduce_polynomial;
use crate::solutions::{
    deduction_invariant, free_of, holds_under, lemma_deduce_from_sound, lemma_free_of_nothing,
    solved,
};
use crate::integer::{
    ceil_quotient, fits_i64, floor_quotient, lemma_ceil_quotient, lemma_ceil_quotient_unique,
    lemma_floor_quotient,
};
use crate::monomial::monomial_quotient;
use crate::polynomial::{constant_value, polynomial_is_constant};
use crate::model::{
    compare_composites, compare_shapes, monomial_wf, polynomial_wf, Comparison, CompositeModel,
    MonomialModel, PolynomialModel, Shape,
};
use crate::order::{
    lemma_compare_composites_equal, lemma_compare_composites_reversed,
    lemma_compare_composites_transitive, lemma_compare_shapes_equal,
};

verus! {

/// Whether `x` stands below `y` in the canonical order.
pub open spec fn composite_less(x: CompositeModel, y: CompositeModel) -> bool {
    compare_composites(x, y) == Comparison::Less
}

/// The canonical order on composites is a strict total order: of `x < y`,
/// `x == y` and `y < x` exactly one holds, and `<` is transitive.
pub proof fn law_composite_order_is_total(x: CompositeModel, y: CompositeModel, z: CompositeModel)
    ensures
        composite_less(x, y) || x == y || composite_less(y, x),
        !(composite_less(x, y) && x == y),
        !(composite_less(x, y) && composite_less(y, x)),
        !(x == y && composite_less(y, x)),
        composite_less(x, y) && composite_less(y, z) ==> composite_less(x, z),
{
    lemma_compare_composites_equal(x, y);
    lemma_compare_composites_equal(y, x);
    lemma_compare_composites_reversed(x, y);
    if composite_less(x, y) && composite_less(y, z) {
        lemma_compare_composites_reversed(y, z);
        lemma_compare_composites_transitive(z, y, x);
        lemma_compare_composites_reversed(z, x);
    }
}

/// A `ceil` stands above a `floor`, whatever their operands, and the floor
/// below the ceil.
pub proof fn law_ceil_above_floor(
    a: PolynomialModel,
    b: PolynomialModel,
    c: PolynomialModel,
    d: PolynomialModel,
)
    ensures
        compare_composites(CompositeModel::Ceil(a, b), CompositeModel::Floor(c, d))
            == Comparison::Greater,
        compare_composites(CompositeModel::Floor(c, d), CompositeModel::Ceil(a, b))
            == Comparison::Less,
{
}

/// In a canonical polynomial no two terms share a shape and no term has the
/// coefficient zero.
pub proof fn law_canonical_terms_are_distinct(p: PolynomialModel, i: int, j: int)
    requires
        polynomial_wf(p),
        0 <= i < p.monomials.len(),
        0 <= j < p.monomials.len(),
        i != j,
    ensures
        p.monomials[i].powers != p.monomials[j].powers,
        p.monomials[i].coefficient != 0,
{
    lemma_compare_shapes_equal(p.monomials[i].powers, p.monomials[j].powers);
    if i < j {
        assert(compare_shapes(p.monomials[i].powers, p.monomials[j].powers)
            == Comparison::Greater);
    } else {
        assert(compare_shapes(p.monomials[j].powers, p.monomials[i].powers)
            == Comparison::Greater);
        lemma_compare_shapes_equal(p.monomials[j].powers, p.monomials[i].powers);
    }
}

/// The canonical form is unique: two canonical polynomials that give every
/// shape the same coefficient are the same polynomial.
pub proof fn law_canonical_form_is_unique(p: PolynomialModel, q: PolynomialModel)
    requires
        polynomial_wf(p),
        polynomial_wf(q),
        forall|s: Shape| coefficient_of(p, s) == coefficient_of(q, s),
    ensures
        p == q,
{
    lemma_canonical_form_unique(p, q);
}

/// Sums and differences of canonical polynomials are canonical: no two
/// terms share a shape and no coefficient is zero.
pub proof fn law_sums_are_canonical(p: PolynomialModel, q: PolynomialModel)
    requires
        polynomial_wf(p),
        polynomial_wf(q),
    ensures
        polynomial_wf(polynomial_sum(p, q)),
        polynomial_wf(polynomial_difference(p, q)),
{
    lemma_combine_terms_wf(p.monomials, q.monomials, 0, 0, false);
    lemma_combine_terms_wf(p.monomials, q.monomials, 0, 0, true);
}

/// Bringing a canonical polynomial into canonical form again changes
/// nothing: adding zero to it, on either side, or taking zero from it,
/// gives it back.
pub proof fn law_canonical_form_is_stable(p: PolynomialModel)
    requires
        polynomial_wf(p),
    ensures
        polynomial_sum(p, zero_polynomial()) == p,
        polynomial_sum(zero_polynomial(), p) == p,
        polynomial_difference(p, zero_polynomial()) == p,
{
    let z = zero_polynomial();
    law_sums_are_canonical(p, z);
    law_sums_are_canonical(z, p);
    assert forall|s: Shape| coefficient_of(polynomial_sum(p, z), s) == coefficient_of(p, s) by {
        lemma_sum_coefficients(p, z, s);
    }
    lemma_canonical_form_unique(polynomial_sum(p, z), p);
    assert forall|s: Shape| coefficient_of(polynomial_sum(z, p), s) == coefficient_of(p, s) by {
        lemma_sum_coefficients(z, p, s);
    }
    lemma_canonical_form_unique(polynomial_sum(z, p), p);
    assert forall|s: Shape|
        coefficient_of(polynomial_difference(p, z), s) == coefficient_of(p, s) by {
        lemma_difference_coefficients(p, z, s);
    }
    lemma_canonical_form_unique(polynomial_difference(p, z), p);
}

/// The terms of a sequence up to the `n`-th added one by one to the zero
/// polynomial.
pub open spec fn terms_added_upto(terms: Seq<MonomialModel>, n: int) -> PolynomialModel
    decreases n,
{
    if n <= 0 || n > terms.len() {
        zero_polynomial()
    } else {
        polynomial_sum(terms_added_upto(terms, n - 1), monomial_polynomial(terms[n - 1]))
    }
}

/// Whether `order` lists every position below `n` once, with `back` telling
/// where each position is listed.
pub open spec fn rearranges(order: Seq<int>, back: Seq<int>, n: int) -> bool {
    &&& order.len() == n
    &&& back.len() == n
    &&& forall|k: int| 0 <= k < n ==> 0 <= #[trigger] order[k] < n && back[order[k]] == k
    &&& forall|i: int| 0 <= i < n ==> 0 <= #[trigger] back[i] < n && order[back[i]] == i
}

/// The terms of a polynomial in the order that `order` gives.
pub open spec fn rearranged(p: PolynomialModel, order: Seq<int>) -> Seq<MonomialModel> {
    Seq::new(order.len(), |k: int| p.monomials[order[k]])
}

/// Canonical monomials added one by one give a canonical polynomial.
pub proof fn lemma_terms_added_wf(terms: Seq<MonomialModel>, n: int)
    requires
        0 <= n <= terms.len(),
        forall|k: int| 0 <= k < terms.len() ==> monomial_wf(#[trigger] terms[k]),
    ensures
        polynomial_wf(terms_added_upto(terms, n)),
    decreases n,
{
    if n > 0 {
        lemma_terms_added_wf(terms, n - 1);
        assert(monomial_wf(terms[n - 1]));
        law_sums_are_canonical(
            terms_added_upto(terms, n - 1),
            monomial_polynomial(terms[n - 1]),
        );
    }
}

/// Monomials added one by one give each shape the sum of the coefficients
/// of the monomials of that shape.
pub proof fn lemma_terms_added_coefficients(terms: Seq<MonomialModel>, s: Shape, n: int)
    requires
        0 <= n <= terms.len(),
    ensures
        coefficient_of(terms_added_upto(terms, n), s) == weighted_sum_upto(
            terms,
            shape_indicator(s),
            n,
        ),
    decreases n,
{
    if n > 0 {
        lemma_terms_added_coefficients(terms, s, n - 1);
        let m = terms[n - 1];
        lemma_sum_coefficients(terms_added_upto(terms, n - 1), monomial_polynomial(m), s);
        lemma_monomial_coefficients(m, s);
        let x = shape_indicator(s)(m.powers);
        assert(m.coefficient * x == if m.powers == s {
            m.coefficient
        } else {
            0
        }) by (nonlinear_arith)
            requires
                x == (if m.powers == s {
                    1int
                } else {
                    0int
                }),
        ;
    }
}

/// Re-normalizing changes nothing, whatever the order: the terms of a
/// canonical polynomial, added one by one to the zero polynomial in any
/// order, give the polynomial back.
pub proof fn law_terms_added_in_any_order_give_the_polynomial(
    p: PolynomialModel,
    order: Seq<int>,
    back: Seq<int>,
)
    requires
        polynomial_wf(p),
        rearranges(order, back, p.monomials.len() as int),
    ensures
        terms_added_upto(rearranged(p, order), p.monomials.len() as int) == p,
{
    let n = p.monomials.len() as int;
    let terms = rearranged(p, order);
    let sum = terms_added_upto(terms, n);
    assert forall|k: int| 0 <= k < terms.len() implies monomial_wf(#[trigger] terms[k]) by {
        assert(0 <= order[k] < n);
        assert(monomial_wf(p.monomials[order[k]]));
    }
    lemma_terms_added_wf(terms, n);
    assert forall|s: Shape| coefficient_of(sum, s) == coefficient_of(p, s) by {
        let w = shape_indicator(s);
        lemma_terms_added_coefficients(terms, s, n);
        lemma_weighted_sum_upto_from(terms, w, n);
        if exists|i: int| 0 <= i < n && p.monomials[i].powers == s {
            let i = choose|i: int| 0 <= i < n && p.monomials[i].powers == s;
            let at = back[i];
            assert(0 <= at < n && order[at] == i);
            assert(terms[at] == p.monomials[i]);
            assert forall|k: int| 0 <= k < n && k != at implies w(terms[k].powers) == 0 by {
                assert(0 <= order[k] < n && back[order[k]] == k);
                law_canonical_terms_are_distinct(p, order[k], i);
            }
            lemma_weighted_sum_skips(terms, w, 0, at);
            lemma_weighted_sum_skips(terms, w, at + 1, n);
            let c = terms[at].coefficient;
            let one = w(terms[at].powers);
            assert(c * one == c) by (nonlinear_arith)
                requires
                    one == 1,
            ;
            lemma_coefficient_of_term(p, i);
        } else {
            assert forall|k: int| 0 <= k < n implies w(terms[k].powers) == 0 by {
                assert(0 <= order[k] < n);
            }
            lemma_weighted_sum_skips(terms, w, 0, n);
            if coefficient_of(p, s) != 0 {
                lemma_coefficient_support(p.monomials, s, 0);
            }
        }
    }
    lemma_canonical_form_unique(sum, p);
}

/// Addition of canonical polynomials is commutative.
pub proof fn law_sum_commutes(p: PolynomialModel, q: PolynomialModel)
    requires
        polynomial_wf(p),
        polynomial_wf(q),
    ensures
        polynomial_sum(p, q) == polynomial_sum(q, p),
{
    law_sums_are_canonical(p, q);
    law_sums_are_canonical(q, p);
    assert forall|s: Shape|
        coefficient_of(polynomial_sum(p, q), s) == coefficient_of(polynomial_sum(q, p), s) by {
        lemma_sum_coefficients(p, q, s);
        lemma_sum_coefficients(q, p, s);
    }
    lemma_canonical_form_unique(polynomial_sum(p, q), polynomial_sum(q, p));
}

/// Addition of canonical polynomials is associative.
pub proof fn law_sum_associates(p: PolynomialModel, q: PolynomialModel, r: PolynomialModel)
    requires
        polynomial_wf(p),
        polynomial_wf(q),
        polynomial_wf(r),
    ensures
        polynomial_sum(polynomial_sum(p, q), r) == polynomial_sum(p, polynomial_sum(q, r)),
{
    let pq = polynomial_sum(p, q);
    let qr = polynomial_sum(q, r);
    law_sums_are_canonical(p, q);
    law_sums_are_canonical(q, r);
    law_sums_are_canonical(pq, r);
    law_sums_are_canonical(p, qr);
    assert forall|s: Shape|
        coefficient_of(polynomial_sum(pq, r), s) == coefficient_of(polynomial_sum(p, qr), s) by {
        lemma_sum_coefficients(p, q, s);
        lemma_sum_coefficients(pq, r, s);
        lemma_sum_coefficients(q, r, s);
        lemma_sum_coefficients(p, qr, s);
    }
    lemma_canonical_form_unique(polynomial_sum(pq, r), polynomial_sum(p, qr));
}

/// A canonical polynomial minus itself is the zero polynomial, which has no
/// terms.
pub proof fn law_difference_with_itself_is_zero(p: PolynomialModel)
    requires
        polynomial_wf(p),
    ensures
        polynomial_difference(p, p) == zero_polynomial(),
        polynomial_difference(p, p).monomials.len() == 0,
{
    law_sums_are_canonical(p, p);
    assert forall|s: Shape|
        coefficient_of(polynomial_difference(p, p), s) == coefficient_of(zero_polynomial(), s) by {
        lemma_difference_coefficients(p, p, s);
    }
    lemma_canonical_form_unique(polynomial_difference(p, p), zero_polynomial());
}

/// Products of canonical polynomials are canonical.
pub proof fn law_products_are_canonical(p: PolynomialModel, q: PolynomialModel)
    requires
        polynomial_wf(p),
        polynomial_wf(q),
    ensures
        polynomial_wf(polynomial_product(p, q)),
{
    lemma_product_wf(p, q, p.monomials.len() as int);
}

/// Multiplication distributes over addition: `p * (q + r)` is
/// `p * q + p * r`, for canonical polynomials.
pub proof fn law_product_distributes(p: PolynomialModel, q: PolynomialModel, r: PolynomialModel)
    requires
        polynomial_wf(p),
        polynomial_wf(q),
        polynomial_wf(r),
    ensures
        polynomial_product(p, polynomial_sum(q, r)) == polynomial_sum(
            polynomial_product(p, q),
            polynomial_product(p, r),
        ),
{
    let qr = polynomial_sum(q, r);
    let left = polynomial_product(p, qr);
    let right = polynomial_sum(polynomial_product(p, q), polynomial_product(p, r));
    law_sums_are_canonical(q, r);
    law_products_are_canonical(p, qr);
    law_products_are_canonical(p, q);
    law_products_are_canonical(p, r);
    law_sums_are_canonical(polynomial_product(p, q), polynomial_product(p, r));
    assert forall|s: Shape| coefficient_of(left, s) == coefficient_of(right, s) by {
        lemma_product_coefficients(p, qr, s);
        lemma_product_coefficients(p, q, s);
        lemma_product_coefficients(p, r, s);
        lemma_sum_coefficients(polynomial_product(p, q), polynomial_product(p, r), s);
        assert forall|t: Shape| #[trigger]
            times_weight(qr, s)(t) == times_weight(q, s)(t) + times_weight(r, s)(t) by {
            lemma_weighted_sum_combine(
                q.monomials,
                r.monomials,
                0,
                0,
                false,
                product_weight(t, s),
            );
        }
        lemma_weighted_sum_of_weights(
            p.monomials,
            times_weight(qr, s),
            times_weight(q, s),
            times_weight(r, s),
            0,
        );
    }
    lemma_canonical_form_unique(left, right);
}

/// Multiplication distributes over addition on the other side too:
/// `(p + q) * r` is `p * r + q * r`, for canonical polynomials.
pub proof fn law_product_distributes_on_the_left(
    p: PolynomialModel,
    q: PolynomialModel,
    r: PolynomialModel,
)
    requires
        polynomial_wf(p),
        polynomial_wf(q),
        polynomial_wf(r),
    ensures
        polynomial_product(polynomial_sum(p, q), r) == polynomial_sum(
            polynomial_product(p, r),
            polynomial_product(q, r),
        ),
{
    let pq = polynomial_sum(p, q);
    let left = polynomial_product(pq, r);
    let right = polynomial_sum(polynomial_product(p, r), polynomial_product(q, r));
    law_sums_are_canonical(p, q);
    law_products_are_canonical(pq, r);
    law_products_are_canonical(p, r);
    law_products_are_canonical(q, r);
    law_sums_are_canonical(polynomial_product(p, r), polynomial_product(q, r));
    assert forall|s: Shape| coefficient_of(left, s) == coefficient_of(right, s) by {
        lemma_product_coefficients(pq, r, s);
        lemma_product_coefficients(p, r, s);
        lemma_product_coefficients(q, r, s);
        lemma_sum_coefficients(polynomial_product(p, r), polynomial_product(q, r), s);
        lemma_weighted_sum_combine(p.monomials, q.monomials, 0, 0, false, times_weight(r, s));
    }
    lemma_canonical_form_unique(left, right);
}

/// The weight of a pair of shapes that is one where their product is `s`.
pub open spec fn pair_weight(s: Shape) -> spec_fn(Shape, Shape) -> int {
    |t: Shape, u: Shape|
        if multiply_shapes(u, t) == s {
            1int
        } else {
            0int
        }
}

/// Multiplication of canonical polynomials is commutative.
pub proof fn law_product_commutes(p: PolynomialModel, q: PolynomialModel)
    requires
        polynomial_wf(p),
        polynomial_wf(q),
    ensures
        polynomial_product(p, q) == polynomial_product(q, p),
{
    law_products_are_canonical(p, q);
    law_products_are_canonical(q, p);
    assert forall|s: Shape|
        coefficient_of(polynomial_product(p, q), s) == coefficient_of(
            polynomial_product(q, p),
            s,
        ) by {
        let f = pair_weight(s);
        lemma_product_coefficients(p, q, s);
        lemma_product_coefficients(q, p, s);
        assert forall|k: int| 0 <= k < p.monomials.len() implies times_weight(q, s)(
            #[trigger] p.monomials[k].powers,
        ) == summed_over_second(q.monomials, f)(p.monomials[k].powers) by {
            let t = p.monomials[k].powers;
            assert forall|j: int| 0 <= j < q.monomials.len() implies product_weight(t, s)(
                #[trigger] q.monomials[j].powers,
            ) == with_first(f, t)(q.monomials[j].powers) by {}
            lemma_weighted_sum_same_weights(
                q.monomials,
                product_weight(t, s),
                with_first(f, t),
                0,
            );
        }
        lemma_weighted_sum_same_weights(
            p.monomials,
            times_weight(q, s),
            summed_over_second(q.monomials, f),
            0,
        );
        lemma_weighted_sums_exchange(p.monomials, q.monomials, f, 0);
        assert forall|j: int| 0 <= j < q.monomials.len() implies summed_over_first(
            p.monomials,
            f,
            0,
        )(#[trigger] q.monomials[j].powers) == times_weight(p, s)(q.monomials[j].powers) by {
            let u = q.monomials[j].powers;
            assert forall|k: int| 0 <= k < p.monomials.len() implies with_second(f, u)(
                #[trigger] p.monomials[k].powers,
            ) == product_weight(u, s)(p.monomials[k].powers) by {
                lemma_product_commutes(p.monomials[k].powers, u);
            }
            lemma_weighted_sum_same_weights(
                p.monomials,
                with_second(f, u),
                product_weight(u, s),
                0,
            );
        }
        lemma_weighted_sum_same_weights(
            q.monomials,
            summed_over_first(p.monomials, f, 0),
            times_weight(p, s),
            0,
        );
    }
    lemma_canonical_form_unique(polynomial_product(p, q), polynomial_product(q, p));
}

/// Whether quotient times divisor plus remainder gives every shape the
/// coefficient that `p` gives it.
pub open spec fn accounts_for(
    quotient: PolynomialModel,
    remainder: PolynomialModel,
    d: PolynomialModel,
    p: PolynomialModel,
) -> bool {
    forall|s: Shape|
        coefficient_of(polynomial_product(quotient, d), s) + coefficient_of(remainder, s)
            == #[trigger] coefficient_of(p, s)
}

/// A step of the division keeps quotient times divisor plus remainder.
pub proof fn lemma_division_step_accounts(
    quotient: PolynomialModel,
    remainder: PolynomialModel,
    d: PolynomialModel,
    p: PolynomialModel,
)
    requires
        accounts_for(quotient, remainder, d, p),
    ensures
        match division_step(quotient, remainder, d) {
            Some((q, r)) => accounts_for(q, r, d, p),
            None => true,
        },
{
    match division_step(quotient, remainder, d) {
        None => {},
        Some((q, r)) => {
            let x = monomial_quotient(remainder.monomials[0], d.monomials[0]).unwrap();
            assert forall|s: Shape|
                coefficient_of(polynomial_product(q, d), s) + coefficient_of(r, s)
                    == #[trigger] coefficient_of(p, s) by {
                assert(coefficient_of(polynomial_product(quotient, d), s) + coefficient_of(
                    remainder,
                    s,
                ) == coefficient_of(p, s));
                lemma_product_coefficients(q, d, s);
                lemma_product_coefficients(quotient, d, s);
                lemma_weighted_sum_combine(
                    quotient.monomials,
                    monomial_polynomial(x).monomials,
                    0,
                    0,
                    false,
                    times_weight(d, s),
                );
                lemma_weighted_sum_single(x, times_weight(d, s));
                lemma_times_monomial_coefficients(d, x, s);
                lemma_difference_coefficients(remainder, polynomial_times_monomial(d, x), s);
            }
        },
    }
}

/// Division keeps quotient times divisor plus remainder.
pub proof fn lemma_division_steps_account(
    quotient: PolynomialModel,
    remainder: PolynomialModel,
    d: PolynomialModel,
    p: PolynomialModel,
    u: Seq<CompositeModel>,
)
    requires
        accounts_for(quotient, remainder, d, p),
    ensures
        accounts_for(
            division_steps(quotient, remainder, d, u).0,
            division_steps(quotient, remainder, d, u).1,
            d,
            p,
        ),
    decreases division_measure(remainder, u),
{
    if confined(u, remainder) && confined(u, d) {
        lemma_division_step_accounts(quotient, remainder, d, p);
        match division_step(quotient, remainder, d) {
            None => {},
            Some((q, r)) => {
                lemma_division_step_decreases(quotient, remainder, d, u);
                lemma_division_steps_account(q, r, d, p, u);
            },
        }
    }
}

/// Long division accounts for the dividend: the quotient times the divisor
/// plus the remainder is the dividend, for canonical polynomials.
pub proof fn law_division_accounts_for_dividend(p: PolynomialModel, d: PolynomialModel)
    requires
        polynomial_wf(p),
        polynomial_wf(d),
    ensures
        polynomial_sum(
            polynomial_product(polynomial_division(p, d).0, d),
            polynomial_division(p, d).1,
        ) == p,
{
    let z = zero_polynomial();
    let (q, r) = polynomial_division(p, d);
    assert(accounts_for(z, p, d, p)) by {
        assert forall|s: Shape|
            coefficient_of(polynomial_product(z, d), s) + coefficient_of(p, s)
                == #[trigger] coefficient_of(p, s) by {
            lemma_product_coefficients(z, d, s);
        }
    }
    lemma_division_steps_account(z, p, d, p, composites_in_play(p, d));
    lemma_division_steps_wf(z, p, d, composites_in_play(p, d));
    law_products_are_canonical(q, d);
    law_sums_are_canonical(polynomial_product(q, d), r);
    let whole = polynomial_sum(polynomial_product(q, d), r);
    assert forall|s: Shape| coefficient_of(whole, s) == coefficient_of(p, s) by {
        lemma_sum_coefficients(polynomial_product(q, d), r, s);
        assert(coefficient_of(polynomial_product(q, d), s) + coefficient_of(r, s)
            == coefficient_of(p, s));
    }
    lemma_canonical_form_unique(whole, p);
}

/// Exact division can be undone: where the quotient of `p` by `d` is `r`,
/// the product of `r` and `d` is `p`, and the long division of `p` by `d`
/// gives `r` and the remainder zero.
pub proof fn law_exact_division_round_trip(
    p: PolynomialModel,
    d: PolynomialModel,
    r: PolynomialModel,
)
    requires
        polynomial_wf(p),
        polynomial_wf(d),
        polynomial_quotient(p, d) == Some(r),
    ensures
        polynomial_product(r, d) == p,
        polynomial_division(p, d) == (r, zero_polynomial()),
{
    law_division_accounts_for_dividend(p, d);
    lemma_division_steps_wf(zero_polynomial(), p, d, composites_in_play(p, d));
    assert(polynomial_division(p, d).1.monomials =~= zero_polynomial().monomials);
    law_products_are_canonical(r, d);
    law_canonical_form_is_stable(polynomial_product(r, d));
}

/// The floor of a quotient is the greatest integer whose product with the
/// divisor is not beyond the dividend.
pub proof fn law_floor_quotient_is_the_floor(a: int, b: int)
    requires
        b != 0,
    ensures
        b > 0 ==> floor_quotient(a, b) * b <= a < (floor_quotient(a, b) + 1) * b,
        b < 0 ==> (floor_quotient(a, b) + 1) * b < a <= floor_quotient(a, b) * b,
{
    lemma_floor_quotient(a, b);
}

/// The ceiling of a quotient is the least integer whose product with the
/// divisor is not short of the dividend, whatever the signs of the two.
pub proof fn law_ceil_quotient_is_the_ceiling(a: int, b: int)
    requires
        b != 0,
    ensures
        b > 0 ==> (ceil_quotient(a, b) - 1) * b < a <= ceil_quotient(a, b) * b,
        b < 0 ==> ceil_quotient(a, b) * b <= a < (ceil_quotient(a, b) - 1) * b,
{
    lemma_ceil_quotient(a, b);
}

/// The ceiling of a quotient is its floor where the divisor divides the
/// dividend, and one more than its floor where it does not.
pub proof fn law_ceil_is_floor_or_one_more(a: int, b: int)
    requires
        b != 0,
    ensures
        ceil_quotient(a, b) == if a == floor_quotient(a, b) * b {
            floor_quotient(a, b)
        } else {
            floor_quotient(a, b) + 1
        },
{
    lemma_floor_quotient(a, b);
    let f = floor_quotient(a, b);
    let q = if a == f * b {
        f
    } else {
        f + 1
    };
    assert((b > 0 ==> (q - 1) * b < a <= q * b) && (b < 0 ==> q * b <= a < (q - 1) * b))
        by (nonlinear_arith)
        requires
            b != 0,
            b > 0 ==> f * b <= a < (f + 1) * b,
            b < 0 ==> (f + 1) * b < a <= f * b,
            q == (if a == f * b {
                f
            } else {
                f + 1
            }),
    ;
    lemma_ceil_quotient_unique(a, b, q);
}

/// A constant polynomial evaluates to its constant under every assignment.
pub proof fn law_constant_evaluates_to_itself(p: PolynomialModel, values: Assignment)
    requires
        polynomial_is_constant(p),
        fits_i64(constant_value(p)),
    ensures
        evaluate_polynomial(p, values) == Ok::<int, EvalError>(constant_value(p)),
{
    reveal_with_fuel(crate::evaluation::evaluate_terms_upto, 3);
    reveal_with_fuel(crate::evaluation::evaluate_factors_upto, 2);
}

/// Where a polynomial evaluates, it evaluates to what it stands for, under
/// every valuation that gives the variables of the assignment their values.
pub proof fn law_evaluation_is_the_value(p: PolynomialModel, values: Assignment, v: Valuation)
    requires
        extends(v, values),
        evaluate_polynomial(p, values).is_ok(),
    ensures
        evaluate_polynomial(p, values) == Ok::<int, EvalError>(polynomial_value(p, v)),
{
    lemma_polynomial_evaluates_to_value(p, values, v);
}

/// Sums, differences and products of polynomials stand for the sums,
/// differences and products of what the polynomials stand for.
pub proof fn law_arithmetic_is_meant(p: PolynomialModel, q: PolynomialModel, v: Valuation)
    ensures
        polynomial_value(polynomial_sum(p, q), v) == polynomial_value(p, v) + polynomial_value(
            q,
            v,
        ),
        polynomial_value(polynomial_difference(p, q), v) == polynomial_value(p, v)
            - polynomial_value(q, v),
        polynomial_value(polynomial_product(p, q), v) == polynomial_value(p, v)
            * polynomial_value(q, v),
{
    lemma_sum_value(p, q, v);
    lemma_difference_value(p, q, v);
    lemma_product_value(p, q, v);
}

/// Long division is meant: the dividend stands for what the quotient stands
/// for times what the divisor stands for, plus what the remainder stands
/// for.
pub proof fn law_division_is_meant(p: PolynomialModel, d: PolynomialModel, v: Valuation)
    requires
        polynomial_wf(p),
        polynomial_wf(d),
    ensures
        polynomial_value(p, v) == polynomial_value(polynomial_division(p, d).0, v)
            * polynomial_value(d, v) + polynomial_value(polynomial_division(p, d).1, v),
{
    let (q, r) = polynomial_division(p, d);
    law_division_accounts_for_dividend(p, d);
    lemma_sum_value(polynomial_product(q, d), r, v);
    lemma_product_value(q, d, v);
}

/// Reduction keeps the meaning: a reduced polynomial stands for what the
/// polynomial stands for, under every valuation that gives the variables
/// of the assignment their values.
pub proof fn law_reduction_keeps_the_value(p: PolynomialModel, values: Assignment, v: Valuation)
    requires
        extends(v, values),
        reduce_polynomial(p, values).is_ok(),
    ensures
        polynomial_value(reduce_polynomial(p, values).unwrap(), v) == polynomial_value(p, v),
{
    lemma_reduce_polynomial_value(p, values, v);
}

/// A deduction finds a solution: under every valuation that gives the
/// variables the values found, each polynomial of the system stands for
/// the value that the system gives it.
pub proof fn law_deduction_finds_a_solution(
    eqs: Equations,
    found: Assignment,
    v: Valuation,
    k: int,
)
    requires
        deduce(eqs) == Ok::<Assignment, DeductionFailure>(found),
        extends(v, found),
        0 <= k < eqs.len(),
    ensures
        polynomial_value(eqs[k].0, v) == eqs[k].1,
{
    let verified = Seq::new(eqs.len(), |k: int| false);
    let nothing: Assignment = Map::empty();
    assert(deduction_invariant(eqs, eqs, verified, nothing)) by {
        assert forall|j: int| 0 <= j < eqs.len() && !(#[trigger] verified[j]) implies free_of(
            eqs[j].0,
            nothing,
        ) by {
            lemma_free_of_nothing(eqs[j].0);
        }
    }
    lemma_deduce_from_sound(eqs, eqs, verified, nothing, 0);
    assert(solved(eqs, deduce(eqs)));
    assert(holds_under(eqs[k].0, eqs[k].1, found));
}

} // verus!
