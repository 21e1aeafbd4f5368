//! The algebra of polynomials over their models: sums, differences and
//! products of canonical term sequences.
use vstd::prelude::*;
use crate::integer::fits_i64;
use crate::model::{
    compare_shapes, monomial_wf, polynomial_wf, Comparison, MonomialModel,
    PolynomialModel, Shape,
};
use crate::order::{
    lemma_compare_shapes_equal, lemma_compare_shapes_reversed, lemma_compare_shapes_transitive,
};
use crate::monomial::{monomial_fits, monomial_product};
use crate::shape::lemma_multiply_shapes_wf;

verus! {

/// The polynomial without terms.
pub open spec fn zero_polynomial() -> PolynomialModel {
    PolynomialModel { monomials: Seq::empty() }
}

/// The terms of a monomial taken as a polynomial: none where its
/// coefficient is zero.
pub open spec fn single_term(m: MonomialModel) -> Seq<MonomialModel> {
    if m.coefficient == 0 {
        Seq::empty()
    } else {
        seq![m]
    }
}

/// A monomial taken as a polynomial.
pub open spec fn monomial_polynomial(m: MonomialModel) -> PolynomialModel {
    PolynomialModel { monomials: single_term(m) }
}

/// The constant monomial with the given value.
pub open spec fn constant_monomial(value: int) -> MonomialModel {
    MonomialModel { coefficient: value, powers: Seq::empty() }
}

/// The constant polynomial with the given value.
pub open spec fn constant_polynomial(value: int) -> PolynomialModel {
    monomial_polynomial(constant_monomial(value))
}

/// An integer, negated where `negate` holds.
pub open spec fn signed(c: int, negate: bool) -> int {
    if negate {
        -c
    } else {
        c
    }
}

/// A term, with its coefficient negated where `negate` holds.
pub open spec fn signed_term(m: MonomialModel, negate: bool) -> MonomialModel {
    MonomialModel { coefficient: signed(m.coefficient, negate), powers: m.powers }
}

/// The terms of `p` from `i` on plus, or where `negate` holds minus, the
/// terms of `q` from `j` on: a merge by decreasing shape in which terms of one shape are combined
/// into one and a term whose coefficient becomes zero is dropped.
pub open spec fn combine_terms_from(
    p: Seq<MonomialModel>,
    q: Seq<MonomialModel>,
    i: int,
    j: int,
    negate: bool,
) -> Seq<MonomialModel>
    decreases p.len() - i + q.len() - j,
{
    if i < 0 || j < 0 || i > p.len() || j > q.len() || (i == p.len() && j == q.len()) {
        Seq::empty()
    } else if i >= p.len() {
        seq![signed_term(q[j], negate)] + combine_terms_from(p, q, i, j + 1, negate)
    } else if j >= q.len() {
        seq![p[i]] + combine_terms_from(p, q, i + 1, j, negate)
    } else {
        match compare_shapes(p[i].powers, q[j].powers) {
            Comparison::Greater => seq![p[i]] + combine_terms_from(p, q, i + 1, j, negate),
            Comparison::Less => seq![signed_term(q[j], negate)] + combine_terms_from(
                p,
                q,
                i,
                j + 1,
                negate,
            ),
            Comparison::Equal => single_term(
                MonomialModel {
                    coefficient: p[i].coefficient + signed(q[j].coefficient, negate),
                    powers: p[i].powers,
                },
            ) + combine_terms_from(p, q, i + 1, j + 1, negate),
        }
    }
}

/// The sum of two polynomials.
pub open spec fn polynomial_sum(p: PolynomialModel, q: PolynomialModel) -> PolynomialModel {
    PolynomialModel { monomials: combine_terms_from(p.monomials, q.monomials, 0, 0, false) }
}

/// The difference of two polynomials.
pub open spec fn polynomial_difference(p: PolynomialModel, q: PolynomialModel) -> PolynomialModel {
    PolynomialModel { monomials: combine_terms_from(p.monomials, q.monomials, 0, 0, true) }
}

/// The polynomial with every coefficient negated.
pub open spec fn polynomial_negation(p: PolynomialModel) -> PolynomialModel {
    polynomial_difference(zero_polynomial(), p)
}

/// Whether every coefficient of a term sequence is a value of the
/// coefficient type.
pub open spec fn terms_fit(p: Seq<MonomialModel>) -> bool {
    forall|k: int| 0 <= k < p.len() ==> fits_i64((#[trigger] p[k]).coefficient)
}

/// The first `n` terms of `p`, each multiplied by `m`, added up one by one.
pub open spec fn times_monomial_upto(p: PolynomialModel, m: MonomialModel, n: int) -> PolynomialModel
    decreases n,
{
    if n <= 0 || n > p.monomials.len() {
        zero_polynomial()
    } else {
        polynomial_sum(
            times_monomial_upto(p, m, n - 1),
            monomial_polynomial(monomial_product(p.monomials[n - 1], m)),
        )
    }
}

/// The product of a polynomial and a monomial: the products of its terms
/// with the monomial, added up one by one.
pub open spec fn polynomial_times_monomial(p: PolynomialModel, m: MonomialModel) -> PolynomialModel {
    times_monomial_upto(p, m, p.monomials.len() as int)
}

/// Whether the products of the first `n` terms of `p` with `m`, and the
/// sums of them taken one by one, are within the machine's range.
pub open spec fn times_monomial_fits_upto(p: PolynomialModel, m: MonomialModel, n: int) -> bool
    decreases n,
{
    n <= 0 || n > p.monomials.len() || (times_monomial_fits_upto(p, m, n - 1) && monomial_fits(
        monomial_product(p.monomials[n - 1], m),
    ) && terms_fit(times_monomial_upto(p, m, n).monomials))
}

/// Whether the product of a polynomial and a monomial can be computed
/// within the machine's range.
pub open spec fn times_monomial_fits(p: PolynomialModel, m: MonomialModel) -> bool {
    times_monomial_fits_upto(p, m, p.monomials.len() as int)
}

/// The products of `q` with the first `n` terms of `p`, added up one by one.
pub open spec fn product_upto(p: PolynomialModel, q: PolynomialModel, n: int) -> PolynomialModel
    decreases n,
{
    if n <= 0 || n > p.monomials.len() {
        zero_polynomial()
    } else {
        polynomial_sum(product_upto(p, q, n - 1), polynomial_times_monomial(q, p.monomials[n - 1]))
    }
}

/// The product of two polynomials: the products of the second with each
/// term of the first, added up one by one.
pub open spec fn polynomial_product(p: PolynomialModel, q: PolynomialModel) -> PolynomialModel {
    product_upto(p, q, p.monomials.len() as int)
}

/// Whether the products of `q` with the first `n` terms of `p`, and the sums
/// of them taken one by one, are within the machine's range.
pub open spec fn product_fits_upto(p: PolynomialModel, q: PolynomialModel, n: int) -> bool
    decreases n,
{
    n <= 0 || n > p.monomials.len() || (product_fits_upto(p, q, n - 1) && times_monomial_fits(
        q,
        p.monomials[n - 1],
    ) && terms_fit(product_upto(p, q, n).monomials))
}

/// Whether the product of two polynomials can be computed within the
/// machine's range.
pub open spec fn product_fits(p: PolynomialModel, q: PolynomialModel) -> bool {
    product_fits_upto(p, q, p.monomials.len() as int)
}

/// Taking one more term into the product of a polynomial and a monomial.
pub proof fn lemma_times_monomial_step(p: PolynomialModel, m: MonomialModel, k: int)
    requires
        0 <= k < p.monomials.len(),
    ensures
        times_monomial_upto(p, m, k + 1) == polynomial_sum(
            times_monomial_upto(p, m, k),
            monomial_polynomial(monomial_product(p.monomials[k], m)),
        ),
        times_monomial_fits_upto(p, m, k + 1) == (times_monomial_fits_upto(p, m, k)
            && monomial_fits(monomial_product(p.monomials[k], m)) && terms_fit(
            times_monomial_upto(p, m, k + 1).monomials,
        )),
{
}

/// Taking one more term into the product of two polynomials.
pub proof fn lemma_product_step(p: PolynomialModel, q: PolynomialModel, k: int)
    requires
        0 <= k < p.monomials.len(),
    ensures
        product_upto(p, q, k + 1) == polynomial_sum(
            product_upto(p, q, k),
            polynomial_times_monomial(q, p.monomials[k]),
        ),
        product_fits_upto(p, q, k + 1) == (product_fits_upto(p, q, k) && times_monomial_fits(
            q,
            p.monomials[k],
        ) && terms_fit(product_upto(p, q, k + 1).monomials)),
{
}

/// What fits up to `n` terms fits up to fewer.
pub proof fn lemma_times_monomial_fits_prefix(p: PolynomialModel, m: MonomialModel, k: int, n: int)
    requires
        0 <= k <= n <= p.monomials.len(),
        times_monomial_fits_upto(p, m, n),
    ensures
        times_monomial_fits_upto(p, m, k),
    decreases n - k,
{
    if k < n {
        lemma_times_monomial_fits_prefix(p, m, k, n - 1);
    }
}

/// What fits up to `n` terms fits up to fewer.
pub proof fn lemma_product_fits_prefix(p: PolynomialModel, q: PolynomialModel, k: int, n: int)
    requires
        0 <= k <= n <= p.monomials.len(),
        product_fits_upto(p, q, n),
    ensures
        product_fits_upto(p, q, k),
    decreases n - k,
{
    if k < n {
        lemma_product_fits_prefix(p, q, k, n - 1);
    }
}

/// The product of a canonical polynomial and a canonical monomial is
/// canonical.
pub proof fn lemma_times_monomial_wf(p: PolynomialModel, m: MonomialModel, n: int)
    requires
        polynomial_wf(p),
        monomial_wf(m),
        0 <= n <= p.monomials.len(),
    ensures
        polynomial_wf(times_monomial_upto(p, m, n)),
    decreases n,
{
    if n > 0 {
        lemma_times_monomial_wf(p, m, n - 1);
        let t = monomial_product(p.monomials[n - 1], m);
        lemma_multiply_shapes_wf(p.monomials[n - 1].powers, m.powers, 0, 0);
        lemma_combine_terms_wf(
            times_monomial_upto(p, m, n - 1).monomials,
            single_term(t),
            0,
            0,
            false,
        );
    }
}

/// The product of canonical polynomials is canonical.
pub proof fn lemma_product_wf(p: PolynomialModel, q: PolynomialModel, n: int)
    requires
        polynomial_wf(p),
        polynomial_wf(q),
        0 <= n <= p.monomials.len(),
    ensures
        polynomial_wf(product_upto(p, q, n)),
    decreases n,
{
    if n > 0 {
        lemma_product_wf(p, q, n - 1);
        lemma_times_monomial_wf(q, p.monomials[n - 1], q.monomials.len() as int);
        lemma_combine_terms_wf(
            product_upto(p, q, n - 1).monomials,
            polynomial_times_monomial(q, p.monomials[n - 1]).monomials,
            0,
            0,
            false,
        );
    }
}

/// A shape above the shapes of all terms of `p` from `i` on and of `q` from
/// `j` on is above the shapes of all terms of their combination.
pub proof fn lemma_combine_terms_below(
    p: Seq<MonomialModel>,
    q: Seq<MonomialModel>,
    i: int,
    j: int,
    negate: bool,
    top: Shape,
)
    requires
        0 <= i <= p.len(),
        0 <= j <= q.len(),
        forall|k: int|
            i <= k < p.len() ==> #[trigger] compare_shapes(top, p[k].powers)
                == Comparison::Greater,
        forall|k: int|
            j <= k < q.len() ==> #[trigger] compare_shapes(top, q[k].powers)
                == Comparison::Greater,
    ensures
        forall|k: int|
            0 <= k < combine_terms_from(p, q, i, j, negate).len() ==> #[trigger] compare_shapes(
                top,
                combine_terms_from(p, q, i, j, negate)[k].powers,
            ) == Comparison::Greater,
    decreases p.len() - i + q.len() - j,
{
    if i >= p.len() && j >= q.len() {
    } else if i >= p.len() {
        lemma_combine_terms_below(p, q, i, j + 1, negate, top);
    } else if j >= q.len() {
        lemma_combine_terms_below(p, q, i + 1, j, negate, top);
    } else {
        match compare_shapes(p[i].powers, q[j].powers) {
            Comparison::Greater => {
                lemma_combine_terms_below(p, q, i + 1, j, negate, top);
            },
            Comparison::Less => {
                lemma_combine_terms_below(p, q, i, j + 1, negate, top);
            },
            Comparison::Equal => {
                lemma_combine_terms_below(p, q, i + 1, j + 1, negate, top);
            },
        }
    }
}

/// A term sequence headed by a canonical term with a non-zero coefficient
/// whose shape is above all of a canonical rest is canonical.
pub proof fn lemma_polynomial_wf_cons(head: MonomialModel, rest: Seq<MonomialModel>)
    requires
        head.coefficient != 0,
        monomial_wf(head),
        polynomial_wf(PolynomialModel { monomials: rest }),
        forall|k: int|
            0 <= k < rest.len() ==> #[trigger] compare_shapes(head.powers, rest[k].powers)
                == Comparison::Greater,
    ensures
        polynomial_wf(PolynomialModel { monomials: seq![head] + rest }),
{
    let r = seq![head] + rest;
    assert forall|k: int| 0 <= k < r.len() implies (#[trigger] r[k]).coefficient != 0
        && monomial_wf(r[k]) by {
        if k > 0 {
            assert(r[k] == rest[k - 1]);
        }
    }
    assert forall|x: int, y: int| 0 <= x < y < r.len() implies #[trigger] compare_shapes(
        r[x].powers,
        r[y].powers,
    ) == Comparison::Greater by {
        assert(r[y] == rest[y - 1]);
        if x > 0 {
            assert(r[x] == rest[x - 1]);
        }
    }
}

/// Adding or subtracting canonical polynomials gives a canonical polynomial.
#[verifier::rlimit(40)]
pub proof fn lemma_combine_terms_wf(
    p: Seq<MonomialModel>,
    q: Seq<MonomialModel>,
    i: int,
    j: int,
    negate: bool,
)
    requires
        polynomial_wf(PolynomialModel { monomials: p }),
        polynomial_wf(PolynomialModel { monomials: q }),
        0 <= i <= p.len(),
        0 <= j <= q.len(),
    ensures
        polynomial_wf(PolynomialModel { monomials: combine_terms_from(p, q, i, j, negate) }),
    decreases p.len() - i + q.len() - j,
{
    if i >= p.len() && j >= q.len() {
    } else if i >= p.len() {
        lemma_combine_terms_wf(p, q, i, j + 1, negate);
        lemma_combine_terms_below(p, q, i, j + 1, negate, q[j].powers);
        lemma_polynomial_wf_cons(signed_term(q[j], negate), combine_terms_from(p, q, i, j + 1, negate));
    } else if j >= q.len() {
        lemma_combine_terms_wf(p, q, i + 1, j, negate);
        lemma_combine_terms_below(p, q, i + 1, j, negate, p[i].powers);
        lemma_polynomial_wf_cons(p[i], combine_terms_from(p, q, i + 1, j, negate));
    } else {
        lemma_compare_shapes_equal(p[i].powers, q[j].powers);
        lemma_compare_shapes_reversed(p[i].powers, q[j].powers);
        match compare_shapes(p[i].powers, q[j].powers) {
            Comparison::Greater => {
                lemma_combine_terms_wf(p, q, i + 1, j, negate);
                assert forall|k: int| j <= k < q.len() implies #[trigger] compare_shapes(
                    p[i].powers,
                    q[k].powers,
                ) == Comparison::Greater by {
                    if k > j {
                        lemma_compare_shapes_transitive(p[i].powers, q[j].powers, q[k].powers);
                    }
                }
                lemma_combine_terms_below(p, q, i + 1, j, negate, p[i].powers);
                lemma_polynomial_wf_cons(p[i], combine_terms_from(p, q, i + 1, j, negate));
            },
            Comparison::Less => {
                lemma_combine_terms_wf(p, q, i, j + 1, negate);
                assert forall|k: int| i <= k < p.len() implies #[trigger] compare_shapes(
                    q[j].powers,
                    p[k].powers,
                ) == Comparison::Greater by {
                    if k > i {
                        lemma_compare_shapes_transitive(q[j].powers, p[i].powers, p[k].powers);
                    }
                }
                lemma_combine_terms_below(p, q, i, j + 1, negate, q[j].powers);
                lemma_polynomial_wf_cons(
                    signed_term(q[j], negate),
                    combine_terms_from(p, q, i, j + 1, negate),
                );
            },
            Comparison::Equal => {
                lemma_combine_terms_wf(p, q, i + 1, j + 1, negate);
                let c = p[i].coefficient + signed(q[j].coefficient, negate);
                let rest = combine_terms_from(p, q, i + 1, j + 1, negate);
                if c != 0 {
                    lemma_combine_terms_below(p, q, i + 1, j + 1, negate, p[i].powers);
                    lemma_polynomial_wf_cons(
                        MonomialModel { coefficient: c, powers: p[i].powers },
                        rest,
                    );
                } else {
                    assert(Seq::<MonomialModel>::empty() + rest =~= rest);
                }
            },
        }
    }
}

} // verus!
