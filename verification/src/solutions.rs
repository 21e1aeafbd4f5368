//! What a deduction finds is a solution: under the values it returns, every
//! equation holds.
use vstd::prelude::*;
use vstd::arithmetic::power::pow;
use crate::algebra::{combine_terms_from, monomial_polynomial};
use crate::deduction::{
    constant_of, deduce_from, examine, lemma_pending_after_verifying, lemma_pending_counts,
    pending_from, solvable_form, solve, substitute, substitute_upto, unknown_of,
    DeductionFailure, Equations, Finding,
};
use crate::evaluation::Assignment;
use crate::integer::{exact_quotient, truncated_remainder};
use crate::meaning::{
    extends, lemma_constant_value, lemma_reduce_polynomial_value, polynomial_value, shape_value,
    shape_value_from, terms_value_from, Valuation,
};
use crate::model::{
    compare_composites, compare_shapes, Comparison, CompositeModel, Identifier, MonomialModel,
    PolynomialModel, Shape,
};
use crate::reduction::{
    reduce_composite, reduce_factors_upto, reduce_monomial_model, reduce_polynomial,
    reduce_terms_upto, Reduced,
};
use crate::roots::{integer_root, is_root, lemma_pow_at_least_base, lemma_pow_of_opposite};
use crate::shape::multiply_shapes_from;

verus! {

/// Whether a composite holds no variable with a value in the assignment.
pub open spec fn composite_free_of(c: CompositeModel, values: Assignment) -> bool
    decreases c, 0nat,
{
    match c {
        CompositeModel::Variable(id) => !values.contains_key(id),
        CompositeModel::Floor(l, r) => free_of(l, values) && free_of(r, values),
        CompositeModel::Ceil(l, r) => free_of(l, values) && free_of(r, values),
        CompositeModel::Min(l, r) => free_of(l, values) && free_of(r, values),
        CompositeModel::Max(l, r) => free_of(l, values) && free_of(r, values),
    }
}

/// Whether a shape holds no variable with a value in the assignment.
pub open spec fn shape_free_of(s: Shape, values: Assignment) -> bool
    decreases s, 0nat,
{
    forall|k: int| 0 <= k < s.len() ==> composite_free_of((#[trigger] s[k]).0, values)
}

/// Whether a polynomial holds no variable with a value in the assignment.
pub open spec fn free_of(p: PolynomialModel, values: Assignment) -> bool
    decreases p, 0nat,
{
    forall|i: int|
        0 <= i < p.monomials.len() ==> shape_free_of(
            (#[trigger] p.monomials[i]).powers,
            values,
        )
}

/// Nothing has a value in the empty assignment.
pub proof fn lemma_composite_free_of_nothing(c: CompositeModel)
    ensures
        composite_free_of(c, Map::empty()),
    decreases c, 0nat,
{
    match c {
        CompositeModel::Variable(_) => {},
        CompositeModel::Floor(l, r) => {
            lemma_free_of_nothing(l);
            lemma_free_of_nothing(r);
        },
        CompositeModel::Ceil(l, r) => {
            lemma_free_of_nothing(l);
            lemma_free_of_nothing(r);
        },
        CompositeModel::Min(l, r) => {
            lemma_free_of_nothing(l);
            lemma_free_of_nothing(r);
        },
        CompositeModel::Max(l, r) => {
            lemma_free_of_nothing(l);
            lemma_free_of_nothing(r);
        },
    }
}

/// Nothing has a value in the empty assignment.
pub proof fn lemma_free_of_nothing(p: PolynomialModel)
    ensures
        free_of(p, Map::empty()),
    decreases p, 0nat,
{
    assert forall|i: int| 0 <= i < p.monomials.len() implies shape_free_of(
        (#[trigger] p.monomials[i]).powers,
        Map::empty(),
    ) by {
        let s = p.monomials[i].powers;
        assert forall|k: int| 0 <= k < s.len() implies composite_free_of(
            (#[trigger] s[k]).0,
            Map::empty(),
        ) by {
            lemma_composite_free_of_nothing(s[k].0);
        }
    }
}

/// The factors of a product of shapes free of the assignment are free of
/// it.
pub proof fn lemma_product_free_of(a: Shape, b: Shape, i: int, j: int, values: Assignment)
    requires
        shape_free_of(a, values),
        shape_free_of(b, values),
        0 <= i <= a.len(),
        0 <= j <= b.len(),
    ensures
        shape_free_of(multiply_shapes_from(a, b, i, j), values),
    decreases a.len() - i + b.len() - j,
{
    let m = multiply_shapes_from(a, b, i, j);
    if i >= a.len() {
        assert forall|k: int| 0 <= k < m.len() implies composite_free_of(
            (#[trigger] m[k]).0,
            values,
        ) by {
            assert(m[k] == b[j + k]);
        }
    } else if j >= b.len() {
        assert forall|k: int| 0 <= k < m.len() implies composite_free_of(
            (#[trigger] m[k]).0,
            values,
        ) by {
            assert(m[k] == a[i + k]);
        }
    } else {
        let (head, rest) = match compare_composites(a[i].0, b[j].0) {
            Comparison::Greater => {
                lemma_product_free_of(a, b, i + 1, j, values);
                (a[i], multiply_shapes_from(a, b, i + 1, j))
            },
            Comparison::Less => {
                lemma_product_free_of(a, b, i, j + 1, values);
                (b[j], multiply_shapes_from(a, b, i, j + 1))
            },
            Comparison::Equal => {
                lemma_product_free_of(a, b, i + 1, j + 1, values);
                ((a[i].0, a[i].1 + b[j].1), multiply_shapes_from(a, b, i + 1, j + 1))
            },
        };
        assert(m == seq![head] + rest);
        assert(composite_free_of(a[i].0, values) && composite_free_of(b[j].0, values));
        assert forall|k: int| 0 <= k < m.len() implies composite_free_of(
            (#[trigger] m[k]).0,
            values,
        ) by {
            if k > 0 {
                assert(m[k] == rest[k - 1]);
            }
        }
    }
}

/// The terms of a sum or a difference of polynomials free of the assignment
/// are free of it.
pub proof fn lemma_combine_free_of(
    p: Seq<MonomialModel>,
    q: Seq<MonomialModel>,
    i: int,
    j: int,
    negate: bool,
    values: Assignment,
)
    requires
        free_of(PolynomialModel { monomials: p }, values),
        free_of(PolynomialModel { monomials: q }, values),
        0 <= i <= p.len(),
        0 <= j <= q.len(),
    ensures
        free_of(PolynomialModel { monomials: combine_terms_from(p, q, i, j, negate) }, values),
    decreases p.len() - i + q.len() - j,
{
    let whole = combine_terms_from(p, q, i, j, negate);
    let take_left = i < p.len() && (j >= q.len() || compare_shapes(p[i].powers, q[j].powers)
        == Comparison::Greater);
    let take_right = j < q.len() && (i >= p.len() || compare_shapes(p[i].powers, q[j].powers)
        == Comparison::Less);
    if i >= p.len() && j >= q.len() {
    } else {
        let pp = PolynomialModel { monomials: p };
        let qq = PolynomialModel { monomials: q };
        let rest = if take_left {
            lemma_combine_free_of(p, q, i + 1, j, negate, values);
            combine_terms_from(p, q, i + 1, j, negate)
        } else if take_right {
            lemma_combine_free_of(p, q, i, j + 1, negate, values);
            combine_terms_from(p, q, i, j + 1, negate)
        } else {
            lemma_combine_free_of(p, q, i + 1, j + 1, negate, values);
            combine_terms_from(p, q, i + 1, j + 1, negate)
        };
        let shape = if take_right {
            assert(shape_free_of(qq.monomials[j].powers, values));
            q[j].powers
        } else {
            assert(shape_free_of(pp.monomials[i].powers, values));
            p[i].powers
        };
        let result = PolynomialModel { monomials: whole };
        let tail = PolynomialModel { monomials: rest };
        assert forall|k: int| 0 <= k < whole.len() implies shape_free_of(
            (#[trigger] result.monomials[k]).powers,
            values,
        ) by {
            if whole.len() == rest.len() {
                assert(whole =~= rest);
                assert(shape_free_of(tail.monomials[k].powers, values));
            } else {
                assert(whole[0].powers == shape);
                if k > 0 {
                    assert(whole[k] == rest[k - 1]);
                    assert(shape_free_of(tail.monomials[k - 1].powers, values));
                }
            }
        }
    }
}

/// A reduced composite holds no variable with a value in the assignment.
pub proof fn lemma_reduce_composite_free(c: CompositeModel, values: Assignment)
    ensures
        match reduce_composite(c, values) {
            Ok(Reduced::Factor(f)) => composite_free_of(f, values),
            _ => true,
        },
    decreases c, 0nat,
{
    match c {
        CompositeModel::Variable(_) => {},
        CompositeModel::Floor(l, r) => {
            lemma_reduce_polynomial_free(l, values);
            lemma_reduce_polynomial_free(r, values);
        },
        CompositeModel::Ceil(l, r) => {
            lemma_reduce_polynomial_free(l, values);
            lemma_reduce_polynomial_free(r, values);
        },
        CompositeModel::Min(l, r) => {
            lemma_reduce_polynomial_free(l, values);
            lemma_reduce_polynomial_free(r, values);
        },
        CompositeModel::Max(l, r) => {
            lemma_reduce_polynomial_free(l, values);
            lemma_reduce_polynomial_free(r, values);
        },
    }
}

/// A monomial with its first factors reduced holds no variable with a
/// value in the assignment.
pub proof fn lemma_reduce_factors_free(m: MonomialModel, values: Assignment, n: int)
    ensures
        match reduce_factors_upto(m, values, n) {
            Ok(r) => shape_free_of(r.powers, values),
            Err(_) => true,
        },
    decreases m, n,
{
    if 0 < n <= m.powers.len() {
        lemma_reduce_factors_free(m, values, n - 1);
        match reduce_factors_upto(m, values, n - 1) {
            Err(_) => {},
            Ok(acc) => {
                lemma_reduce_composite_free(m.powers[n - 1].0, values);
                match reduce_composite(m.powers[n - 1].0, values) {
                    Ok(Reduced::Factor(f)) => {
                        let factor = seq![(f, m.powers[n - 1].1)];
                        assert(shape_free_of(factor, values));
                        lemma_product_free_of(acc.powers, factor, 0, 0, values);
                    },
                    _ => {},
                }
            },
        }
    }
}

/// The first terms of a polynomial reduced hold no variable with a value in
/// the assignment.
pub proof fn lemma_reduce_terms_free(p: PolynomialModel, values: Assignment, n: int)
    ensures
        match reduce_terms_upto(p, values, n) {
            Ok(r) => free_of(r, values),
            Err(_) => true,
        },
    decreases p, n,
{
    if 0 < n <= p.monomials.len() {
        lemma_reduce_terms_free(p, values, n - 1);
        match reduce_terms_upto(p, values, n - 1) {
            Err(_) => {},
            Ok(acc) => {
                let m = p.monomials[n - 1];
                lemma_reduce_factors_free(m, values, m.powers.len() as int);
                match reduce_monomial_model(m, values) {
                    Err(_) => {},
                    Ok(r) => {
                        let single = monomial_polynomial(r);
                        assert(free_of(single, values));
                        lemma_combine_free_of(
                            acc.monomials,
                            single.monomials,
                            0,
                            0,
                            false,
                            values,
                        );
                    },
                }
            },
        }
    }
}

/// A reduced polynomial holds no variable with a value in the assignment.
pub proof fn lemma_reduce_polynomial_free(p: PolynomialModel, values: Assignment)
    ensures
        match reduce_polynomial(p, values) {
            Ok(r) => free_of(r, values),
            Err(_) => true,
        },
    decreases p, p.monomials.len() + 1,
{
    lemma_reduce_terms_free(p, values, p.monomials.len() as int);
}

/// Whether a polynomial stands for `target` whatever the variables without
/// a value stand for.
pub open spec fn holds_under(p: PolynomialModel, target: int, values: Assignment) -> bool {
    forall|v: Valuation| #[trigger] extends(v, values) ==> polynomial_value(p, v) == target
}

/// Whether two polynomials stand for the same whatever the variables
/// without a value stand for.
pub open spec fn agree_under(p: PolynomialModel, q: PolynomialModel, values: Assignment) -> bool {
    forall|v: Valuation| #[trigger]
        extends(v, values) ==> polynomial_value(p, v) == polynomial_value(q, v)
}

/// What holds of a deduction under way: every equation still stands for
/// what it was given to stand for, every verified equation holds, and no
/// equation that remains holds a variable with a value.
pub open spec fn deduction_invariant(
    given: Equations,
    eqs: Equations,
    verified: Seq<bool>,
    values: Assignment,
) -> bool {
    &&& eqs.len() == given.len()
    &&& verified.len() == given.len()
    &&& forall|k: int| 0 <= k < given.len() ==> (#[trigger] eqs[k]).1 == given[k].1
    &&& forall|k: int| 0 <= k < given.len() ==> agree_under((#[trigger] eqs[k]).0, given[k].0, values)
    &&& forall|k: int|
        0 <= k < given.len() && #[trigger] verified[k] ==> holds_under(
            given[k].0,
            given[k].1,
            values,
        )
    &&& forall|k: int|
        0 <= k < given.len() && !(#[trigger] verified[k]) ==> free_of(eqs[k].0, values)
}

/// A valuation that extends an assignment with one more value extends the
/// assignment, and gives the variable that value.
pub proof fn lemma_extends_more(v: Valuation, values: Assignment, id: Identifier, x: i64)
    requires
        !values.contains_key(id),
        extends(v, values.insert(id, x)),
    ensures
        extends(v, values),
        v(id) == x,
{
    let more = values.insert(id, x);
    assert(more.contains_key(id));
    assert forall|other: Identifier| #[trigger]
        values.contains_key(other) implies v(other) == values[other] by {
        assert(more.contains_key(other));
    }
}

/// What a polynomial in solvable form stands for.
pub proof fn lemma_solvable_value(p: PolynomialModel, v: Valuation)
    requires
        solvable_form(p),
    ensures
        polynomial_value(p, v) == p.monomials[0].coefficient * pow(
            v(unknown_of(p)),
            p.monomials[0].powers[0].1,
        ) + constant_of(p),
{
    let m = p.monomials[0];
    let x = pow(v(unknown_of(p)), m.powers[0].1);
    assert(shape_value_from(m.powers, v, 1) == 1);
    assert(x * 1 == x) by (nonlinear_arith);
    assert(shape_value(m.powers, v) == x);
    if p.monomials.len() == 2 {
        let c = p.monomials[1];
        assert(shape_value(c.powers, v) == 1);
        assert(c.coefficient * 1 == c.coefficient) by (nonlinear_arith);
        assert(terms_value_from(p.monomials, v, 2) == 0);
    } else {
        assert(terms_value_from(p.monomials, v, 1) == 0);
    }
}

/// The solution of an equation in solvable form solves it.
pub proof fn lemma_solution_solves(p: PolynomialModel, target: int)
    requires
        solvable_form(p),
        solve(p, target).is_some(),
    ensures
        p.monomials[0].coefficient * pow(
            solve(p, target).unwrap() as int,
            p.monomials[0].powers[0].1,
        ) + constant_of(p) == target,
{
    let a = p.monomials[0].coefficient;
    let n = p.monomials[0].powers[0].1;
    let d = target - constant_of(p);
    let q = exact_quotient(d, a).unwrap();
    assert(truncated_remainder(d, a) == 0);
    let r = integer_root(q as int, n).unwrap();
    assert(is_root(r, q as int, n));
    if n >= 1 {
        if q >= 0 {
            lemma_pow_at_least_base(r, n);
        } else {
            lemma_pow_of_opposite(-r, n);
            lemma_pow_at_least_base(-r, n);
        }
    }
    assert(r as i64 as int == r);
    if n == 0 {
        reveal(pow);
    }
}

/// The equations with the first `n` substituted: as many, with the same
/// targets; the polynomial of an equation that is not verified is reduced,
/// the others are as they were.
pub proof fn lemma_substitute_upto(eqs: Equations, verified: Seq<bool>, values: Assignment, n: int)
    requires
        0 <= n <= eqs.len(),
        verified.len() == eqs.len(),
        substitute_upto(eqs, verified, values, n).is_ok(),
    ensures
        substitute_upto(eqs, verified, values, n).unwrap().len() == eqs.len(),
        forall|k: int|
            0 <= k < eqs.len() ==> (#[trigger] substitute_upto(
                eqs,
                verified,
                values,
                n,
            ).unwrap()[k]) == if k < n && !verified[k] {
                (reduce_polynomial(eqs[k].0, values).unwrap(), eqs[k].1)
            } else {
                eqs[k]
            },
        forall|k: int|
            0 <= k < n && !(#[trigger] verified[k]) ==> reduce_polynomial(eqs[k].0, values).is_ok(),
    decreases n,
{
    if n > 0 {
        lemma_substitute_upto(eqs, verified, values, n - 1);
    }
}

/// Where nothing is pending, every equation is verified.
pub proof fn lemma_nothing_pending(verified: Seq<bool>)
    requires
        pending_from(verified, 0) == 0,
    ensures
        forall|k: int| 0 <= k < verified.len() ==> #[trigger] verified[k],
{
    assert forall|k: int| 0 <= k < verified.len() implies #[trigger] verified[k] by {
        if !verified[k] {
            lemma_pending_counts(verified, 0, k);
        }
    }
}

/// Whether every equation holds under the values that a deduction returned.
pub open spec fn solved(given: Equations, r: Result<Assignment, DeductionFailure>) -> bool {
    match r {
        Ok(found) => forall|k: int|
            0 <= k < given.len() ==> holds_under((#[trigger] given[k]).0, given[k].1, found),
        Err(_) => true,
    }
}

/// A deduction under way ends with values under which every equation
/// holds.
pub proof fn lemma_deduce_from_sound(
    given: Equations,
    eqs: Equations,
    verified: Seq<bool>,
    values: Assignment,
    i: int,
)
    requires
        deduction_invariant(given, eqs, verified, values),
        0 <= i,
    ensures
        solved(given, deduce_from(given, eqs, verified, values, i)),
    decreases pending_from(verified, 0), eqs.len() - i,
{
    let result = deduce_from(given, eqs, verified, values, i);
    if i >= eqs.len() {
        if pending_from(verified, 0) == 0 {
            lemma_nothing_pending(verified);
            assert(result == Ok::<Assignment, DeductionFailure>(values));
            assert forall|k: int| 0 <= k < given.len() implies holds_under(
                (#[trigger] given[k]).0,
                given[k].1,
                values,
            ) by {
                assert(verified[k]);
            }
        }
        assert(solved(given, result));
    } else if verified[i] {
        lemma_deduce_from_sound(given, eqs, verified, values, i + 1);
        assert(solved(given, result));
    } else {
        lemma_pending_after_verifying(verified, i, 0);
        let p = eqs[i].0;
        let target = eqs[i].1;
        let marked = verified.update(i, true);
        match examine(p, target) {
            Finding::Agreement => {
                assert(holds_under(given[i].0, given[i].1, values)) by {
                    assert(agree_under(eqs[i].0, given[i].0, values));
                    assert forall|v: Valuation| #[trigger] extends(v, values) implies polynomial_value(
                        given[i].0,
                        v,
                    ) == given[i].1 by {
                        lemma_constant_value(p, v);
                    }
                }
                assert(deduction_invariant(given, eqs, marked, values)) by {
                    assert forall|k: int| 0 <= k < given.len() && #[trigger] marked[k] implies holds_under(
                        given[k].0,
                        given[k].1,
                        values,
                    ) by {
                        if k != i {
                            assert(verified[k]);
                        }
                    }
                    assert forall|k: int|
                        0 <= k < given.len() && !(#[trigger] marked[k]) implies free_of(
                        eqs[k].0,
                        values,
                    ) by {
                        assert(!verified[k]);
                    }
                }
                lemma_deduce_from_sound(given, eqs, marked, values, i + 1);
                assert(solved(given, result));
            },
            Finding::Solution(id, x) => {
                let more = values.insert(id, x);
                match substitute(eqs, marked, more) {
                    Err(_) => {},
                    Ok(reduced) => {
                        lemma_substitute_upto(eqs, marked, more, eqs.len() as int);
                        // The variable has no value yet.
                        assert(free_of(p, values));
                        assert(shape_free_of(p.monomials[0].powers, values));
                        assert(composite_free_of(
                            p.monomials[0].powers[0].0,
                            values,
                        ));
                        assert(!values.contains_key(id));
                        lemma_solution_solves(p, target);
                        assert(deduction_invariant(given, reduced, marked, more)) by {
                            assert forall|k: int| 0 <= k < given.len() implies agree_under(
                                (#[trigger] reduced[k]).0,
                                given[k].0,
                                more,
                            ) by {
                                assert(agree_under(eqs[k].0, given[k].0, values));
                                assert forall|v: Valuation| #[trigger]
                                    extends(v, more) implies polynomial_value(reduced[k].0, v)
                                    == polynomial_value(given[k].0, v) by {
                                    lemma_extends_more(v, values, id, x);
                                    if !marked[k] {
                                        lemma_reduce_polynomial_value(eqs[k].0, more, v);
                                    }
                                }
                            }
                            assert forall|k: int|
                                0 <= k < given.len() && #[trigger] marked[k] implies holds_under(
                                given[k].0,
                                given[k].1,
                                more,
                            ) by {
                                assert forall|v: Valuation| #[trigger]
                                    extends(v, more) implies polynomial_value(given[k].0, v)
                                    == given[k].1 by {
                                    lemma_extends_more(v, values, id, x);
                                    if k == i {
                                        assert(agree_under(eqs[i].0, given[i].0, values));
                                        lemma_solvable_value(p, v);
                                    } else {
                                        assert(verified[k]);
                                        assert(holds_under(given[k].0, given[k].1, values));
                                    }
                                }
                            }
                            assert forall|k: int|
                                0 <= k < given.len() && !(#[trigger] marked[k]) implies free_of(
                                reduced[k].0,
                                more,
                            ) by {
                                lemma_reduce_polynomial_free(eqs[k].0, more);
                            }
                        }
                        lemma_deduce_from_sound(given, reduced, marked, more, 0);
                    },
                }
                assert(solved(given, result));
            },
            Finding::Unknown => {
                lemma_deduce_from_sound(given, eqs, verified, values, i + 1);
                assert(solved(given, result));
            },
            _ => {
                assert(solved(given, result));
            },
        }
    }
}

} // verus!
