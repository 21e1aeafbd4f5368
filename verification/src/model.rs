//! Mathematical models of composites, monomials and polynomials, the
//! canonical total order on them, and what it means to be in canonical form.
use vstd::prelude::*;

verus! {

/// A variable name.
pub type Identifier = u16;

/// The model of a composite: a variable, or an irreducible operation on two
/// polynomials.
pub enum CompositeModel {
    Variable(Identifier),
    Floor(PolynomialModel, PolynomialModel),
    Ceil(PolynomialModel, PolynomialModel),
    Min(PolynomialModel, PolynomialModel),
    Max(PolynomialModel, PolynomialModel),
}

/// The product of composites raised to powers: a monomial without its
/// coefficient.
pub type Shape = Seq<(CompositeModel, nat)>;

/// The model of a monomial: an integer times a shape.
pub struct MonomialModel {
    pub coefficient: int,
    pub powers: Shape,
}

/// The model of a polynomial: the sequence of its terms.
pub struct PolynomialModel {
    pub monomials: Seq<MonomialModel>,
}

/// The outcome of comparing two values in the canonical order.
#[derive(Clone, Copy, Debug, PartialEq, Eq, Structural)]
pub enum Comparison {
    Less,
    Equal,
    Greater,
}

impl Comparison {
    /// The outcome with the two sides exchanged.
    pub open spec fn reversed(self) -> Comparison {
        match self {
            Comparison::Less => Comparison::Greater,
            Comparison::Equal => Comparison::Equal,
            Comparison::Greater => Comparison::Less,
        }
    }

    /// The first outcome unless it is `Equal`, else the second.
    pub open spec fn then_with(self, next: Comparison) -> Comparison {
        if self == Comparison::Equal {
            next
        } else {
            self
        }
    }
}

/// The natural order on integers.
pub open spec fn compare_ints(a: int, b: int) -> Comparison {
    if a < b {
        Comparison::Less
    } else if a == b {
        Comparison::Equal
    } else {
        Comparison::Greater
    }
}

/// The rank of a composite's kind: variables first, then `max`, `min`,
/// `ceil` and `floor`.
pub open spec fn kind_rank(c: CompositeModel) -> int {
    match c {
        CompositeModel::Variable(_) => 4,
        CompositeModel::Max(_, _) => 3,
        CompositeModel::Min(_, _) => 2,
        CompositeModel::Ceil(_, _) => 1,
        CompositeModel::Floor(_, _) => 0,
    }
}

/// The canonical order on composites. Different kinds compare by
/// [`kind_rank`]; two variables compare by the reverse of their identifiers;
/// two operations of one kind compare by their left operands, then by their
/// right operands.
pub open spec fn compare_composites(a: CompositeModel, b: CompositeModel) -> Comparison
    decreases a, 0nat,
{
    match (a, b) {
        (CompositeModel::Variable(x), CompositeModel::Variable(y)) => compare_ints(
            y as int,
            x as int,
        ),
        (CompositeModel::Floor(l, r), CompositeModel::Floor(ol, or)) => compare_polynomials(
            l,
            ol,
        ).then_with(compare_polynomials(r, or)),
        (CompositeModel::Ceil(l, r), CompositeModel::Ceil(ol, or)) => compare_polynomials(
            l,
            ol,
        ).then_with(compare_polynomials(r, or)),
        (CompositeModel::Min(l, r), CompositeModel::Min(ol, or)) => compare_polynomials(
            l,
            ol,
        ).then_with(compare_polynomials(r, or)),
        (CompositeModel::Max(l, r), CompositeModel::Max(ol, or)) => compare_polynomials(
            l,
            ol,
        ).then_with(compare_polynomials(r, or)),
        _ => compare_ints(kind_rank(a), kind_rank(b)),
    }
}

/// The order on shapes from position `i` on: the first differing factor
/// decides, by composite and then by power; if there is none, the longer
/// shape is greater.
pub open spec fn compare_shapes_from(a: Shape, b: Shape, i: int) -> Comparison
    decreases a, a.len() - i,
{
    if i < 0 || i >= a.len() || i >= b.len() {
        compare_ints(a.len() as int, b.len() as int)
    } else {
        compare_composites(a[i].0, b[i].0).then_with(
            compare_ints(a[i].1 as int, b[i].1 as int),
        ).then_with(compare_shapes_from(a, b, i + 1))
    }
}

/// The canonical order on shapes.
pub open spec fn compare_shapes(a: Shape, b: Shape) -> Comparison
    decreases a, a.len() + 1,
{
    compare_shapes_from(a, b, 0)
}

/// The canonical order on monomials: by shape, then by coefficient.
pub open spec fn compare_monomials(a: MonomialModel, b: MonomialModel) -> Comparison
    decreases a, 0nat,
{
    compare_shapes(a.powers, b.powers).then_with(compare_ints(a.coefficient, b.coefficient))
}

/// The order on sequences of monomials from position `i` on: the first
/// differing term decides; if there is none, the longer sequence is greater.
pub open spec fn compare_terms_from(a: Seq<MonomialModel>, b: Seq<MonomialModel>, i: int) -> Comparison
    decreases a, a.len() - i,
{
    if i < 0 || i >= a.len() || i >= b.len() {
        compare_ints(a.len() as int, b.len() as int)
    } else {
        compare_monomials(a[i], b[i]).then_with(compare_terms_from(a, b, i + 1))
    }
}

/// The canonical order on polynomials.
pub open spec fn compare_polynomials(a: PolynomialModel, b: PolynomialModel) -> Comparison
    decreases a, 0nat,
{
    compare_terms_from(a.monomials, b.monomials, 0)
}

/// A composite is canonical when its operands are.
pub open spec fn composite_wf(c: CompositeModel) -> bool
    decreases c, 0nat,
{
    match c {
        CompositeModel::Variable(_) => true,
        CompositeModel::Floor(l, r) => polynomial_wf(l) && polynomial_wf(r),
        CompositeModel::Ceil(l, r) => polynomial_wf(l) && polynomial_wf(r),
        CompositeModel::Min(l, r) => polynomial_wf(l) && polynomial_wf(r),
        CompositeModel::Max(l, r) => polynomial_wf(l) && polynomial_wf(r),
    }
}

/// The factors of a shape stand in strictly decreasing order of composite.
pub open spec fn shape_sorted(s: Shape) -> bool {
    forall|i: int, j: int|
        0 <= i < j < s.len() ==> #[trigger] compare_composites(s[i].0, s[j].0)
            == Comparison::Greater
}

/// A shape is canonical when its factors are canonical composites with
/// positive powers, in strictly decreasing order.
pub open spec fn shape_wf(s: Shape) -> bool
    decreases s, 0nat,
{
    &&& forall|i: int| 0 <= i < s.len() ==> (#[trigger] s[i]).1 > 0 && composite_wf(s[i].0)
    &&& shape_sorted(s)
}

/// A monomial is canonical when its shape is. Its coefficient may be zero.
pub open spec fn monomial_wf(m: MonomialModel) -> bool
    decreases m, 0nat,
{
    shape_wf(m.powers)
}

/// The terms of a polynomial stand in strictly decreasing order of shape.
pub open spec fn terms_sorted(p: Seq<MonomialModel>) -> bool {
    forall|i: int, j: int|
        0 <= i < j < p.len() ==> #[trigger] compare_shapes(p[i].powers, p[j].powers)
            == Comparison::Greater
}

/// A polynomial is canonical when its terms are canonical monomials with
/// non-zero coefficients, in strictly decreasing order of shape. So no two
/// terms share a shape, and the zero polynomial has no terms.
pub open spec fn polynomial_wf(p: PolynomialModel) -> bool
    decreases p, 0nat,
{
    &&& forall|i: int|
        0 <= i < p.monomials.len() ==> (#[trigger] p.monomials[i]).coefficient != 0
            && monomial_wf(p.monomials[i])
    &&& terms_sorted(p.monomials)
}

} // verus!
