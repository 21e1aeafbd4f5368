//! The algebra of shapes: products and quotients of canonical factor lists.
use vstd::prelude::*;
use crate::model::{
    compare_composites, composite_wf, shape_wf, Comparison, CompositeModel, Shape,
};
use crate::order::{
    lemma_compare_composites_equal, lemma_compare_composites_reversed,
    lemma_compare_composites_transitive,
};

verus! {

/// The product of two shapes from positions `i` and `j` on: the factors of
/// both in decreasing order, with the powers of a shared composite added.
pub open spec fn multiply_shapes_from(a: Shape, b: Shape, i: int, j: int) -> Shape
    decreases a.len() - i + b.len() - j,
{
    if i < 0 || j < 0 || i >= a.len() {
        b.skip(j)
    } else if j >= b.len() {
        a.skip(i)
    } else {
        match compare_composites(a[i].0, b[j].0) {
            Comparison::Greater => seq![a[i]] + multiply_shapes_from(a, b, i + 1, j),
            Comparison::Less => seq![b[j]] + multiply_shapes_from(a, b, i, j + 1),
            Comparison::Equal => seq![(a[i].0, a[i].1 + b[j].1)] + multiply_shapes_from(
                a,
                b,
                i + 1,
                j + 1,
            ),
        }
    }
}

/// The product of two shapes.
pub open spec fn multiply_shapes(a: Shape, b: Shape) -> Shape {
    multiply_shapes_from(a, b, 0, 0)
}

/// The power of a composite in a shape: zero where it is no factor.
pub open spec fn power_in(s: Shape, c: CompositeModel) -> nat
    decreases s.len(),
{
    if s.len() == 0 {
        0
    } else if s.last().0 == c {
        s.last().1
    } else {
        power_in(s.drop_last(), c)
    }
}

/// Whether every factor of `d` is a factor of `s` to at least the same
/// power.
pub open spec fn shape_divides(d: Shape, s: Shape) -> bool {
    forall|k: int| 0 <= k < d.len() ==> power_in(s, (#[trigger] d[k]).0) >= d[k].1
}

/// What is left of `s` from position `i` on when the factors of `d` are
/// taken out: each power is lowered by the power of its composite in `d`,
/// and factors whose power falls to zero disappear.
pub open spec fn divide_shapes_from(s: Shape, d: Shape, i: int) -> Shape
    decreases s.len() - i,
{
    if i < 0 || i >= s.len() {
        seq![]
    } else if s[i].1 > power_in(d, s[i].0) {
        seq![(s[i].0, (s[i].1 - power_in(d, s[i].0)) as nat)] + divide_shapes_from(s, d, i + 1)
    } else {
        divide_shapes_from(s, d, i + 1)
    }
}

/// The quotient of `s` by `d`, meaningful where `d` divides `s`.
pub open spec fn divide_shapes(s: Shape, d: Shape) -> Shape {
    divide_shapes_from(s, d, 0)
}

/// Whether every power of a shape is a value of the exponent type.
pub open spec fn shape_fits(s: Shape) -> bool {
    forall|k: int| 0 <= k < s.len() ==> (#[trigger] s[k]).1 <= u8::MAX
}

/// A composite above all factors of two shapes from given positions on is
/// above all factors of their product from there on.
pub proof fn lemma_multiply_shapes_below(a: Shape, b: Shape, i: int, j: int, top: CompositeModel)
    requires
        0 <= i <= a.len(),
        0 <= j <= b.len(),
        forall|k: int|
            i <= k < a.len() ==> #[trigger] compare_composites(top, a[k].0) == Comparison::Greater,
        forall|k: int|
            j <= k < b.len() ==> #[trigger] compare_composites(top, b[k].0) == Comparison::Greater,
    ensures
        forall|k: int|
            0 <= k < multiply_shapes_from(a, b, i, j).len() ==> #[trigger] compare_composites(
                top,
                multiply_shapes_from(a, b, i, j)[k].0,
            ) == Comparison::Greater,
    decreases a.len() - i + b.len() - j,
{
    let m = multiply_shapes_from(a, b, i, j);
    if i >= a.len() {
    } else if j >= b.len() {
    } else {
        match compare_composites(a[i].0, b[j].0) {
            Comparison::Greater => {
                lemma_multiply_shapes_below(a, b, i + 1, j, top);
            },
            Comparison::Less => {
                lemma_multiply_shapes_below(a, b, i, j + 1, top);
            },
            Comparison::Equal => {
                lemma_multiply_shapes_below(a, b, i + 1, j + 1, top);
            },
        }
    }
}

/// A factor list headed by a canonical factor above all of a canonical rest
/// is canonical.
pub proof fn lemma_shape_wf_cons(head: (CompositeModel, nat), rest: Shape)
    requires
        head.1 > 0,
        composite_wf(head.0),
        shape_wf(rest),
        forall|k: int|
            0 <= k < rest.len() ==> #[trigger] compare_composites(head.0, rest[k].0)
                == Comparison::Greater,
    ensures
        shape_wf(seq![head] + rest),
{
    let r = seq![head] + rest;
    assert forall|k: int| 0 <= k < r.len() implies (#[trigger] r[k]).1 > 0 && composite_wf(
        r[k].0,
    ) by {
        if k > 0 {
            assert(r[k] == rest[k - 1]);
        }
    }
    assert forall|x: int, y: int| 0 <= x < y < r.len() implies #[trigger] compare_composites(
        r[x].0,
        r[y].0,
    ) == Comparison::Greater by {
        assert(r[y] == rest[y - 1]);
        if x > 0 {
            assert(r[x] == rest[x - 1]);
        }
    }
}

/// The product of canonical shapes is canonical.
pub proof fn lemma_multiply_shapes_wf(a: Shape, b: Shape, i: int, j: int)
    requires
        shape_wf(a),
        shape_wf(b),
        0 <= i <= a.len(),
        0 <= j <= b.len(),
    ensures
        shape_wf(multiply_shapes_from(a, b, i, j)),
    decreases a.len() - i + b.len() - j,
{
    if i >= a.len() {
        assert(shape_wf(b.skip(j)));
    } else if j >= b.len() {
        assert(shape_wf(a.skip(i)));
    } else {
        lemma_compare_composites_equal(a[i].0, b[j].0);
        lemma_compare_composites_reversed(a[i].0, b[j].0);
        match compare_composites(a[i].0, b[j].0) {
            Comparison::Greater => {
                lemma_multiply_shapes_wf(a, b, i + 1, j);
                assert forall|k: int| j <= k < b.len() implies #[trigger] compare_composites(
                    a[i].0,
                    b[k].0,
                ) == Comparison::Greater by {
                    if k > j {
                        lemma_compare_composites_transitive(a[i].0, b[j].0, b[k].0);
                    }
                }
                lemma_multiply_shapes_below(a, b, i + 1, j, a[i].0);
                lemma_shape_wf_cons(a[i], multiply_shapes_from(a, b, i + 1, j));
            },
            Comparison::Less => {
                lemma_multiply_shapes_wf(a, b, i, j + 1);
                assert forall|k: int| i <= k < a.len() implies #[trigger] compare_composites(
                    b[j].0,
                    a[k].0,
                ) == Comparison::Greater by {
                    if k > i {
                        lemma_compare_composites_transitive(b[j].0, a[i].0, a[k].0);
                    }
                }
                lemma_multiply_shapes_below(a, b, i, j + 1, b[j].0);
                lemma_shape_wf_cons(b[j], multiply_shapes_from(a, b, i, j + 1));
            },
            Comparison::Equal => {
                lemma_multiply_shapes_wf(a, b, i + 1, j + 1);
                lemma_multiply_shapes_below(a, b, i + 1, j + 1, a[i].0);
                lemma_shape_wf_cons(
                    (a[i].0, a[i].1 + b[j].1),
                    multiply_shapes_from(a, b, i + 1, j + 1),
                );
            },
        }
    }
}

/// A composite above all factors of a shape from a position on is above all
/// factors of its quotient from there on.
pub proof fn lemma_divide_shapes_below(s: Shape, d: Shape, i: int, top: CompositeModel)
    requires
        0 <= i <= s.len(),
        forall|k: int|
            i <= k < s.len() ==> #[trigger] compare_composites(top, s[k].0) == Comparison::Greater,
    ensures
        forall|k: int|
            0 <= k < divide_shapes_from(s, d, i).len() ==> #[trigger] compare_composites(
                top,
                divide_shapes_from(s, d, i)[k].0,
            ) == Comparison::Greater,
    decreases s.len() - i,
{
    if i < s.len() {
        lemma_divide_shapes_below(s, d, i + 1, top);
    }
}

/// The quotient of a canonical shape is canonical, and its powers are no
/// greater than those of the shape.
pub proof fn lemma_divide_shapes_wf(s: Shape, d: Shape, i: int)
    requires
        shape_wf(s),
        0 <= i <= s.len(),
    ensures
        shape_wf(divide_shapes_from(s, d, i)),
        shape_fits(s) ==> shape_fits(divide_shapes_from(s, d, i)),
    decreases s.len() - i,
{
    if i < s.len() {
        lemma_divide_shapes_wf(s, d, i + 1);
        let rest = divide_shapes_from(s, d, i + 1);
        if s[i].1 > power_in(d, s[i].0) {
            let head = (s[i].0, (s[i].1 - power_in(d, s[i].0)) as nat);
            lemma_divide_shapes_below(s, d, i + 1, s[i].0);
            lemma_shape_wf_cons(head, rest);
            if shape_fits(s) {
                let r = seq![head] + rest;
                assert forall|k: int| 0 <= k < r.len() implies (#[trigger] r[k]).1
                    <= u8::MAX by {
                    if k > 0 {
                        assert(r[k] == rest[k - 1]);
                    }
                }
            }
        }
    }
}

} // verus!
