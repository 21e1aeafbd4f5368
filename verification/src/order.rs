//! The canonical order is a total order: proofs.
use vstd::prelude::*;
use crate::model::{
    compare_composites, compare_ints, compare_monomials, compare_polynomials, compare_shapes,
    compare_shapes_from, compare_terms_from, Comparison, CompositeModel, MonomialModel,
    PolynomialModel, Shape,
};

verus! {

/// Comparing exchanges sides by reversal, for composites.
pub proof fn lemma_compare_composites_reversed(a: CompositeModel, b: CompositeModel)
    ensures
        compare_composites(b, a) == compare_composites(a, b).reversed(),
    decreases a, 0nat,
{
    match (a, b) {
        (CompositeModel::Floor(l, r), CompositeModel::Floor(ol, or)) => {
            lemma_compare_polynomials_reversed(l, ol);
            lemma_compare_polynomials_reversed(r, or);
        },
        (CompositeModel::Ceil(l, r), CompositeModel::Ceil(ol, or)) => {
            lemma_compare_polynomials_reversed(l, ol);
            lemma_compare_polynomials_reversed(r, or);
        },
        (CompositeModel::Min(l, r), CompositeModel::Min(ol, or)) => {
            lemma_compare_polynomials_reversed(l, ol);
            lemma_compare_polynomials_reversed(r, or);
        },
        (CompositeModel::Max(l, r), CompositeModel::Max(ol, or)) => {
            lemma_compare_polynomials_reversed(l, ol);
            lemma_compare_polynomials_reversed(r, or);
        },
        _ => {},
    }
}

/// Comparing exchanges sides by reversal, for shapes from a position on.
pub proof fn lemma_compare_shapes_from_reversed(a: Shape, b: Shape, i: int)
    ensures
        compare_shapes_from(b, a, i) == compare_shapes_from(a, b, i).reversed(),
    decreases a, a.len() - i,
{
    if !(i < 0 || i >= a.len() || i >= b.len()) {
        lemma_compare_composites_reversed(a[i].0, b[i].0);
        lemma_compare_shapes_from_reversed(a, b, i + 1);
    }
}

/// Comparing exchanges sides by reversal, for shapes.
pub proof fn lemma_compare_shapes_reversed(a: Shape, b: Shape)
    ensures
        compare_shapes(b, a) == compare_shapes(a, b).reversed(),
    decreases a, a.len() + 1,
{
    lemma_compare_shapes_from_reversed(a, b, 0);
}

/// Comparing exchanges sides by reversal, for monomials.
pub proof fn lemma_compare_monomials_reversed(a: MonomialModel, b: MonomialModel)
    ensures
        compare_monomials(b, a) == compare_monomials(a, b).reversed(),
    decreases a, 0nat,
{
    lemma_compare_shapes_reversed(a.powers, b.powers);
}

/// Comparing exchanges sides by reversal, for term sequences from a position
/// on.
pub proof fn lemma_compare_terms_from_reversed(
    a: Seq<MonomialModel>,
    b: Seq<MonomialModel>,
    i: int,
)
    ensures
        compare_terms_from(b, a, i) == compare_terms_from(a, b, i).reversed(),
    decreases a, a.len() - i,
{
    if !(i < 0 || i >= a.len() || i >= b.len()) {
        lemma_compare_monomials_reversed(a[i], b[i]);
        lemma_compare_terms_from_reversed(a, b, i + 1);
    }
}

/// Comparing exchanges sides by reversal, for polynomials.
pub proof fn lemma_compare_polynomials_reversed(a: PolynomialModel, b: PolynomialModel)
    ensures
        compare_polynomials(b, a) == compare_polynomials(a, b).reversed(),
    decreases a, 0nat,
{
    lemma_compare_terms_from_reversed(a.monomials, b.monomials, 0);
}

/// Two composites compare `Equal` exactly when they are the same.
pub proof fn lemma_compare_composites_equal(a: CompositeModel, b: CompositeModel)
    ensures
        compare_composites(a, b) == Comparison::Equal <==> a == b,
    decreases a, 0nat,
{
    match (a, b) {
        (CompositeModel::Floor(l, r), CompositeModel::Floor(ol, or)) => {
            lemma_compare_polynomials_equal(l, ol);
            lemma_compare_polynomials_equal(r, or);
        },
        (CompositeModel::Ceil(l, r), CompositeModel::Ceil(ol, or)) => {
            lemma_compare_polynomials_equal(l, ol);
            lemma_compare_polynomials_equal(r, or);
        },
        (CompositeModel::Min(l, r), CompositeModel::Min(ol, or)) => {
            lemma_compare_polynomials_equal(l, ol);
            lemma_compare_polynomials_equal(r, or);
        },
        (CompositeModel::Max(l, r), CompositeModel::Max(ol, or)) => {
            lemma_compare_polynomials_equal(l, ol);
            lemma_compare_polynomials_equal(r, or);
        },
        _ => {},
    }
}

/// Two shapes compare `Equal` from `i` on exactly when they have one length
/// and agree from `i` on.
pub proof fn lemma_compare_shapes_from_equal(a: Shape, b: Shape, i: int)
    requires
        0 <= i,
    ensures
        compare_shapes_from(a, b, i) == Comparison::Equal <==> (a.len() == b.len() && forall|
            k: int,
        |
            i <= k < a.len() ==> a[k] == b[k]),
    decreases a, a.len() - i,
{
    if !(i >= a.len() || i >= b.len()) {
        lemma_compare_composites_equal(a[i].0, b[i].0);
        lemma_compare_shapes_from_equal(a, b, i + 1);
        if compare_shapes_from(a, b, i) == Comparison::Equal {
            assert forall|k: int| i <= k < a.len() implies a[k] == b[k] by {
                if k > i {
                    assert(a[k] == b[k]);
                }
            }
        }
    }
}

/// Two shapes compare `Equal` exactly when they are the same.
pub proof fn lemma_compare_shapes_equal(a: Shape, b: Shape)
    ensures
        compare_shapes(a, b) == Comparison::Equal <==> a == b,
    decreases a, a.len() + 1,
{
    lemma_compare_shapes_from_equal(a, b, 0);
    if compare_shapes(a, b) == Comparison::Equal {
        assert(a =~= b);
    }
}

/// Two monomials compare `Equal` exactly when they are the same.
pub proof fn lemma_compare_monomials_equal(a: MonomialModel, b: MonomialModel)
    ensures
        compare_monomials(a, b) == Comparison::Equal <==> a == b,
    decreases a, 0nat,
{
    lemma_compare_shapes_equal(a.powers, b.powers);
}

/// Two term sequences compare `Equal` from `i` on exactly when they have one
/// length and agree from `i` on.
pub proof fn lemma_compare_terms_from_equal(a: Seq<MonomialModel>, b: Seq<MonomialModel>, i: int)
    requires
        0 <= i,
    ensures
        compare_terms_from(a, b, i) == Comparison::Equal <==> (a.len() == b.len() && forall|
            k: int,
        |
            i <= k < a.len() ==> a[k] == b[k]),
    decreases a, a.len() - i,
{
    if !(i >= a.len() || i >= b.len()) {
        lemma_compare_monomials_equal(a[i], b[i]);
        lemma_compare_terms_from_equal(a, b, i + 1);
        if compare_terms_from(a, b, i) == Comparison::Equal {
            assert forall|k: int| i <= k < a.len() implies a[k] == b[k] by {
                if k > i {
                    assert(a[k] == b[k]);
                }
            }
        }
    }
}

/// Two polynomials compare `Equal` exactly when they are the same.
pub proof fn lemma_compare_polynomials_equal(a: PolynomialModel, b: PolynomialModel)
    ensures
        compare_polynomials(a, b) == Comparison::Equal <==> a == b,
    decreases a, 0nat,
{
    lemma_compare_terms_from_equal(a.monomials, b.monomials, 0);
    if compare_polynomials(a, b) == Comparison::Equal {
        assert(a.monomials =~= b.monomials);
    }
}

/// `Greater` is transitive on composites.
pub proof fn lemma_compare_composites_transitive(
    a: CompositeModel,
    b: CompositeModel,
    c: CompositeModel,
)
    requires
        compare_composites(a, b) == Comparison::Greater,
        compare_composites(b, c) == Comparison::Greater,
    ensures
        compare_composites(a, c) == Comparison::Greater,
    decreases a, 1nat,
{
    match (a, b, c) {
        (
            CompositeModel::Floor(l1, r1),
            CompositeModel::Floor(l2, r2),
            CompositeModel::Floor(l3, r3),
        ) => {
            lemma_operands_transitive(a, l1, r1, l2, r2, l3, r3);
        },
        (
            CompositeModel::Ceil(l1, r1),
            CompositeModel::Ceil(l2, r2),
            CompositeModel::Ceil(l3, r3),
        ) => {
            lemma_operands_transitive(a, l1, r1, l2, r2, l3, r3);
        },
        (
            CompositeModel::Min(l1, r1),
            CompositeModel::Min(l2, r2),
            CompositeModel::Min(l3, r3),
        ) => {
            lemma_operands_transitive(a, l1, r1, l2, r2, l3, r3);
        },
        (
            CompositeModel::Max(l1, r1),
            CompositeModel::Max(l2, r2),
            CompositeModel::Max(l3, r3),
        ) => {
            lemma_operands_transitive(a, l1, r1, l2, r2, l3, r3);
        },
        _ => {},
    }
}

/// `Greater` is transitive on pairs of operands compared left first.
proof fn lemma_operands_transitive(
    a: CompositeModel,
    l1: PolynomialModel,
    r1: PolynomialModel,
    l2: PolynomialModel,
    r2: PolynomialModel,
    l3: PolynomialModel,
    r3: PolynomialModel,
)
    requires
        decreases_to!(a => l1),
        decreases_to!(a => r1),
        compare_polynomials(l1, l2).then_with(compare_polynomials(r1, r2))
            == Comparison::Greater,
        compare_polynomials(l2, l3).then_with(compare_polynomials(r2, r3))
            == Comparison::Greater,
    ensures
        compare_polynomials(l1, l3).then_with(compare_polynomials(r1, r3))
            == Comparison::Greater,
    decreases a, 0nat,
{
    lemma_compare_polynomials_equal(l1, l2);
    lemma_compare_polynomials_equal(l2, l3);
    lemma_compare_polynomials_equal(l1, l3);
    if compare_polynomials(l1, l2) == Comparison::Greater && compare_polynomials(l2, l3)
        == Comparison::Greater {
        lemma_compare_polynomials_transitive(l1, l2, l3);
    } else if compare_polynomials(l1, l2) == Comparison::Equal && compare_polynomials(l2, l3)
        == Comparison::Equal {
        lemma_compare_polynomials_transitive(r1, r2, r3);
    }
}

/// `Greater` is transitive on shapes from a position on.
pub proof fn lemma_compare_shapes_from_transitive(a: Shape, b: Shape, c: Shape, i: int)
    requires
        0 <= i,
        compare_shapes_from(a, b, i) == Comparison::Greater,
        compare_shapes_from(b, c, i) == Comparison::Greater,
    ensures
        compare_shapes_from(a, c, i) == Comparison::Greater,
    decreases a, a.len() - i,
{
    if i < a.len() && i < b.len() && i < c.len() {
        let ab = compare_composites(a[i].0, b[i].0);
        let bc = compare_composites(b[i].0, c[i].0);
        lemma_compare_composites_equal(a[i].0, b[i].0);
        lemma_compare_composites_equal(b[i].0, c[i].0);
        lemma_compare_composites_equal(a[i].0, c[i].0);
        if ab == Comparison::Greater && bc == Comparison::Greater {
            lemma_compare_composites_transitive(a[i].0, b[i].0, c[i].0);
        } else if ab == Comparison::Equal && bc == Comparison::Equal {
            let eab = compare_ints(a[i].1 as int, b[i].1 as int);
            let ebc = compare_ints(b[i].1 as int, c[i].1 as int);
            if eab == Comparison::Equal && ebc == Comparison::Equal {
                lemma_compare_shapes_from_transitive(a, b, c, i + 1);
            }
        }
    }
}

/// `Greater` is transitive on shapes.
pub proof fn lemma_compare_shapes_transitive(a: Shape, b: Shape, c: Shape)
    requires
        compare_shapes(a, b) == Comparison::Greater,
        compare_shapes(b, c) == Comparison::Greater,
    ensures
        compare_shapes(a, c) == Comparison::Greater,
    decreases a, a.len() + 1,
{
    lemma_compare_shapes_from_transitive(a, b, c, 0);
}

/// `Greater` is transitive on monomials.
pub proof fn lemma_compare_monomials_transitive(
    a: MonomialModel,
    b: MonomialModel,
    c: MonomialModel,
)
    requires
        compare_monomials(a, b) == Comparison::Greater,
        compare_monomials(b, c) == Comparison::Greater,
    ensures
        compare_monomials(a, c) == Comparison::Greater,
    decreases a, 0nat,
{
    lemma_compare_shapes_equal(a.powers, b.powers);
    lemma_compare_shapes_equal(b.powers, c.powers);
    lemma_compare_shapes_equal(a.powers, c.powers);
    if compare_shapes(a.powers, b.powers) == Comparison::Greater && compare_shapes(
        b.powers,
        c.powers,
    ) == Comparison::Greater {
        lemma_compare_shapes_transitive(a.powers, b.powers, c.powers);
    }
}

/// `Greater` is transitive on term sequences from a position on.
pub proof fn lemma_compare_terms_from_transitive(
    a: Seq<MonomialModel>,
    b: Seq<MonomialModel>,
    c: Seq<MonomialModel>,
    i: int,
)
    requires
        0 <= i,
        compare_terms_from(a, b, i) == Comparison::Greater,
        compare_terms_from(b, c, i) == Comparison::Greater,
    ensures
        compare_terms_from(a, c, i) == Comparison::Greater,
    decreases a, a.len() - i,
{
    if i < a.len() && i < b.len() && i < c.len() {
        let ab = compare_monomials(a[i], b[i]);
        let bc = compare_monomials(b[i], c[i]);
        lemma_compare_monomials_equal(a[i], b[i]);
        lemma_compare_monomials_equal(b[i], c[i]);
        lemma_compare_monomials_equal(a[i], c[i]);
        if ab == Comparison::Greater && bc == Comparison::Greater {
            lemma_compare_monomials_transitive(a[i], b[i], c[i]);
        } else if ab == Comparison::Equal && bc == Comparison::Equal {
            lemma_compare_terms_from_transitive(a, b, c, i + 1);
        }
    }
}

/// `Greater` is transitive on polynomials.
pub proof fn lemma_compare_polynomials_transitive(
    a: PolynomialModel,
    b: PolynomialModel,
    c: PolynomialModel,
)
    requires
        compare_polynomials(a, b) == Comparison::Greater,
        compare_polynomials(b, c) == Comparison::Greater,
    ensures
        compare_polynomials(a, c) == Comparison::Greater,
    decreases a, 0nat,
{
    lemma_compare_terms_from_transitive(a.monomials, b.monomials, c.monomials, 0);
}

} // verus!
