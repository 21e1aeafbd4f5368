//! Tests of canonical form: whether a composite, a monomial or a
//! polynomial built by hand may be handed to the operations that ask for
//! canonical operands.
use vstd::prelude::*;
use crate::composite::Composite;
use crate::model::{
    compare_composites, compare_shapes, composite_wf, monomial_wf, polynomial_wf, shape_wf,
    Comparison, MonomialModel, PolynomialModel, Shape,
};
use crate::monomial::{compare_powers, shape_model, Monomial};
use crate::order::{lemma_compare_composites_transitive, lemma_compare_shapes_transitive};
use crate::polynomial::Polynomial;

verus! {

/// Whether the first `n` factors of a shape are canonical composites with
/// positive powers.
#[verifier::opaque]
pub open spec fn factors_wf_upto(s: Shape, n: int) -> bool {
    forall|k: int| 0 <= k < n ==> (#[trigger] s[k]).1 > 0 && composite_wf(s[k].0)
}

/// Whether the first `n` factors of a shape stand in strictly decreasing
/// order.
#[verifier::opaque]
pub open spec fn factors_sorted_upto(s: Shape, n: int) -> bool {
    forall|i: int, j: int|
        0 <= i < j < n ==> #[trigger] compare_composites(s[i].0, s[j].0) == Comparison::Greater
}

/// Whether the first `n` factors of a shape are canonical composites with
/// positive powers, in strictly decreasing order.
pub open spec fn shape_wf_upto(s: Shape, n: int) -> bool {
    factors_wf_upto(s, n) && factors_sorted_upto(s, n)
}

/// Whether the first `n` terms are canonical monomials with non-zero
/// coefficients.
#[verifier::opaque]
pub open spec fn monomials_wf_upto(p: Seq<MonomialModel>, n: int) -> bool {
    forall|k: int| 0 <= k < n ==> (#[trigger] p[k]).coefficient != 0 && monomial_wf(p[k])
}

/// Whether the first `n` terms stand in strictly decreasing order of shape.
#[verifier::opaque]
pub open spec fn monomials_sorted_upto(p: Seq<MonomialModel>, n: int) -> bool {
    forall|i: int, j: int|
        0 <= i < j < n ==> #[trigger] compare_shapes(p[i].powers, p[j].powers)
            == Comparison::Greater
}

/// Whether the first `n` terms are canonical monomials with non-zero
/// coefficients, in strictly decreasing order of shape.
pub open spec fn terms_wf_upto(p: Seq<MonomialModel>, n: int) -> bool {
    monomials_wf_upto(p, n) && monomials_sorted_upto(p, n)
}

/// No factors are canonical, and all factors of a shape are canonical
/// exactly when the shape is.
proof fn lemma_shape_wf_upto_ends(s: Shape)
    ensures
        shape_wf_upto(s, 0),
        shape_wf_upto(s, s.len() as int) == shape_wf(s),
{
    reveal(factors_wf_upto);
    reveal(factors_sorted_upto);
}

/// A shape with a factor that is not canonical, or stands no lower than
/// the factor before it, is not canonical.
proof fn lemma_shape_not_wf(s: Shape, k: int)
    requires
        0 <= k < s.len(),
        s[k].1 == 0 || !composite_wf(s[k].0) || (k > 0 && compare_composites(s[k - 1].0, s[k].0)
            != Comparison::Greater),
    ensures
        !shape_wf(s),
{
    if shape_wf(s) {
        assert(s[k].1 > 0 && composite_wf(s[k].0));
        assert(compare_composites(s[k - 1].0, s[k].0) == Comparison::Greater);
    }
}

/// One more canonical factor with a positive power keeps the factors
/// canonical.
proof fn lemma_factors_wf_upto_next(s: Shape, k: int)
    requires
        factors_wf_upto(s, k),
        0 <= k < s.len(),
        s[k].1 > 0,
        composite_wf(s[k].0),
    ensures
        factors_wf_upto(s, k + 1),
{
    reveal(factors_wf_upto);
}

/// One more factor below its neighbour keeps the factors in order.
proof fn lemma_factors_sorted_upto_next(s: Shape, k: int)
    requires
        factors_sorted_upto(s, k),
        0 <= k < s.len(),
        k > 0 ==> compare_composites(s[k - 1].0, s[k].0) == Comparison::Greater,
    ensures
        factors_sorted_upto(s, k + 1),
{
    reveal(factors_sorted_upto);
    assert forall|i: int, j: int| 0 <= i < j < k + 1 implies #[trigger] compare_composites(
        s[i].0,
        s[j].0,
    ) == Comparison::Greater by {
        if j == k && i < k - 1 {
            assert(compare_composites(s[i].0, s[k - 1].0) == Comparison::Greater);
            lemma_compare_composites_transitive(s[i].0, s[k - 1].0, s[k].0);
        }
    }
}

/// No terms are canonical, and all terms of a polynomial are canonical
/// exactly when the polynomial is.
proof fn lemma_terms_wf_upto_ends(p: PolynomialModel)
    ensures
        terms_wf_upto(p.monomials, 0),
        terms_wf_upto(p.monomials, p.monomials.len() as int) == polynomial_wf(p),
{
    reveal(monomials_wf_upto);
    reveal(monomials_sorted_upto);
}

/// A polynomial with a term that is not canonical, has the coefficient
/// zero, or stands no lower than the term before it, is not canonical.
proof fn lemma_polynomial_not_wf(p: PolynomialModel, k: int)
    requires
        0 <= k < p.monomials.len(),
        p.monomials[k].coefficient == 0 || !monomial_wf(p.monomials[k]) || (k > 0
            && compare_shapes(p.monomials[k - 1].powers, p.monomials[k].powers)
            != Comparison::Greater),
    ensures
        !polynomial_wf(p),
{
    if polynomial_wf(p) {
        assert(p.monomials[k].coefficient != 0 && monomial_wf(p.monomials[k]));
        assert(compare_shapes(p.monomials[k - 1].powers, p.monomials[k].powers)
            == Comparison::Greater);
    }
}

/// One more canonical term with a non-zero coefficient keeps the terms
/// canonical.
proof fn lemma_monomials_wf_upto_next(p: Seq<MonomialModel>, k: int)
    requires
        monomials_wf_upto(p, k),
        0 <= k < p.len(),
        p[k].coefficient != 0,
        monomial_wf(p[k]),
    ensures
        monomials_wf_upto(p, k + 1),
{
    reveal(monomials_wf_upto);
}

/// One more term below its neighbour keeps the terms in order.
proof fn lemma_monomials_sorted_upto_next(p: Seq<MonomialModel>, k: int)
    requires
        monomials_sorted_upto(p, k),
        0 <= k < p.len(),
        k > 0 ==> compare_shapes(p[k - 1].powers, p[k].powers) == Comparison::Greater,
    ensures
        monomials_sorted_upto(p, k + 1),
{
    reveal(monomials_sorted_upto);
    assert forall|i: int, j: int| 0 <= i < j < k + 1 implies #[trigger] compare_shapes(
        p[i].powers,
        p[j].powers,
    ) == Comparison::Greater by {
        if j == k && i < k - 1 {
            assert(compare_shapes(p[i].powers, p[k - 1].powers) == Comparison::Greater);
            lemma_compare_shapes_transitive(p[i].powers, p[k - 1].powers, p[k].powers);
        }
    }
}

/// Whether two operands are canonical.
fn operands_canonical(parent: &Composite, l: &Polynomial, r: &Polynomial) -> (c: bool)
    requires
        decreases_to!(parent => l),
        decreases_to!(parent => r),
    ensures
        c == (polynomial_wf(l@) && polynomial_wf(r@)),
    decreases parent, 0nat,
{
    l.is_canonical() && r.is_canonical()
}

/// Whether a list of factors is canonical: every composite is canonical,
/// every power is positive, and the composites stand in strictly decreasing
/// order.
pub fn powers_canonical(v: &Vec<(Composite, u8)>) -> (r: bool)
    ensures
        r == shape_wf(shape_model(v)),
    decreases v, 0nat,
{
    let ghost s = shape_model(v);
    proof {
        lemma_shape_wf_upto_ends(s);
    }
    let mut k: usize = 0;
    while k < v.len()
        invariant
            k <= v.len(),
            s == shape_model(v),
            shape_wf_upto(s, k as int),
            shape_wf_upto(s, s.len() as int) == shape_wf(s),
        decreases v.len() - k,
    {
        assert(s[k as int] == (v@[k as int].0@, v@[k as int].1 as nat));
        if v[k].1 == 0 || !v[k].0.is_canonical() {
            proof {
                lemma_shape_not_wf(s, k as int);
            }
            return false;
        }
        if k > 0 {
            assert(s[k - 1] == (v@[k - 1].0@, v@[k - 1].1 as nat));
            if v[k - 1].0.compare(&v[k].0) != Comparison::Greater {
                proof {
                    lemma_shape_not_wf(s, k as int);
                }
                return false;
            }
        }
        proof {
            lemma_factors_wf_upto_next(s, k as int);
            lemma_factors_sorted_upto_next(s, k as int);
        }
        k += 1;
    }
    true
}

impl Composite {
    /// Whether the composite is canonical: a variable is; an operation is
    /// where both its operands are.
    pub fn is_canonical(&self) -> (r: bool)
        ensures
            r == composite_wf(self@),
        decreases self, 1nat,
    {
        match self {
            Composite::Variable(_) => true,
            Composite::Floor(l, r) => operands_canonical(self, l, r),
            Composite::Ceil(l, r) => operands_canonical(self, l, r),
            Composite::Min(l, r) => operands_canonical(self, l, r),
            Composite::Max(l, r) => operands_canonical(self, l, r),
        }
    }
}

impl Monomial {
    /// Whether the monomial is canonical: its factors are canonical
    /// composites with positive powers, in strictly decreasing order.
    pub fn is_canonical(&self) -> (r: bool)
        ensures
            r == monomial_wf(self@),
        decreases self, 1nat,
    {
        powers_canonical(&self.powers)
    }
}

impl Polynomial {
    /// Whether the polynomial is canonical: its terms are canonical
    /// monomials with non-zero coefficients, in strictly decreasing order of
    /// shape.
    pub fn is_canonical(&self) -> (r: bool)
        ensures
            r == polynomial_wf(self@),
        decreases self, 0nat,
    {
        let ghost p = self@;
        proof {
            lemma_terms_wf_upto_ends(p);
        }
        let mut k: usize = 0;
        while k < self.monomials.len()
            invariant
                k <= self.monomials.len(),
                p == self@,
                terms_wf_upto(p.monomials, k as int),
                terms_wf_upto(p.monomials, p.monomials.len() as int) == polynomial_wf(p),
            decreases self.monomials.len() - k,
        {
            assert(p.monomials[k as int] == self.monomials@[k as int]@);
            if self.monomials[k].coefficient == 0 || !self.monomials[k].is_canonical() {
                proof {
                    lemma_polynomial_not_wf(p, k as int);
                }
                return false;
            }
            if k > 0 {
                assert(p.monomials[k - 1] == self.monomials@[k - 1]@);
                if compare_powers(&self.monomials[k - 1].powers, &self.monomials[k].powers)
                    != Comparison::Greater {
                    proof {
                        lemma_polynomial_not_wf(p, k as int);
                    }
                    return false;
                }
            }
            proof {
                lemma_monomials_wf_upto_next(p.monomials, k as int);
                lemma_monomials_sorted_upto_next(p.monomials, k as int);
            }
            k += 1;
        }
        true
    }
}

} // verus!
