//! A rank for shapes: a number that grows with the canonical order, by
//! which long division is seen to end.
use vstd::prelude::*;
use vstd::arithmetic::power::{lemma_pow_increases, lemma_pow_positive, pow};
use crate::factors::{factor_sum_from, lemma_factor_sum_product};
use crate::model::{
    compare_composites, compare_shapes, compare_shapes_from, shape_sorted, shape_wf, Comparison,
    CompositeModel, Shape,
};
use crate::order::{
    lemma_compare_composites_equal, lemma_compare_composites_transitive, lemma_compare_shapes_equal,
    lemma_compare_shapes_reversed,
};
use crate::shape::{
    divide_shapes_from, lemma_multiply_shapes_wf, multiply_shapes, multiply_shapes_from,
    shape_fits,
};

verus! {

/// How many of the first `n` composites of `u` stand below `c`.
pub open spec fn count_below(u: Seq<CompositeModel>, c: CompositeModel, n: int) -> nat
    decreases n,
{
    if n <= 0 || n > u.len() {
        0
    } else if compare_composites(c, u[n - 1]) == Comparison::Greater {
        count_below(u, c, n - 1) + 1
    } else {
        count_below(u, c, n - 1)
    }
}

/// The weight of a composite among the composites `u`: one more digit, in
/// the base of the exponent type, for each composite of `u` below it.
pub open spec fn composite_weight(u: Seq<CompositeModel>) -> spec_fn(CompositeModel) -> int {
    |c: CompositeModel| pow(256, count_below(u, c, u.len() as int))
}

/// The rank of a shape among the composites `u`, from position `i` on: the
/// sum of its powers, each times the weight of its composite.
pub open spec fn rank_from(s: Shape, u: Seq<CompositeModel>, i: int) -> int {
    factor_sum_from(s, composite_weight(u), i)
}

/// The rank of a shape among the composites `u`.
pub open spec fn rank(s: Shape, u: Seq<CompositeModel>) -> int {
    rank_from(s, u, 0)
}

/// Whether every composite of a shape is among the composites `u`.
pub open spec fn covers(u: Seq<CompositeModel>, s: Shape) -> bool {
    forall|k: int| 0 <= k < s.len() ==> u.contains((#[trigger] s[k]).0)
}

/// A greater composite has at least as many composites below it, and one
/// more for each occurrence of the smaller one.
pub proof fn lemma_count_below_grows(
    u: Seq<CompositeModel>,
    greater: CompositeModel,
    smaller: CompositeModel,
    n: int,
)
    requires
        compare_composites(greater, smaller) == Comparison::Greater,
        0 <= n <= u.len(),
    ensures
        count_below(u, greater, n) >= count_below(u, smaller, n),
        (exists|k: int| 0 <= k < n && u[k] == smaller) ==> count_below(u, greater, n)
            > count_below(u, smaller, n),
    decreases n,
{
    if n > 0 {
        lemma_count_below_grows(u, greater, smaller, n - 1);
        lemma_compare_composites_equal(smaller, u[n - 1]);
        if compare_composites(smaller, u[n - 1]) == Comparison::Greater {
            lemma_compare_composites_transitive(greater, smaller, u[n - 1]);
        }
        if exists|k: int| 0 <= k < n && u[k] == smaller {
            let k = choose|k: int| 0 <= k < n && u[k] == smaller;
            if k < n - 1 {
                assert(0 <= k < n - 1 && u[k] == smaller);
            }
        }
    }
}

/// A weight is positive, and the weight of a greater composite is at least
/// the base times that of a smaller one among `u`.
pub proof fn lemma_weight_grows(
    u: Seq<CompositeModel>,
    greater: CompositeModel,
    smaller: CompositeModel,
)
    requires
        compare_composites(greater, smaller) == Comparison::Greater,
        u.contains(smaller),
    ensures
        composite_weight(u)(greater) >= 256 * composite_weight(u)(smaller),
        composite_weight(u)(smaller) >= 1,
{
    let n = u.len() as int;
    let k = choose|k: int| 0 <= k < u.len() && u[k] == smaller;
    lemma_count_below_grows(u, greater, smaller, n);
    let a = count_below(u, greater, n);
    let b = count_below(u, smaller, n);
    lemma_pow_positive(256, b);
    lemma_pow_increases(256, b + 1, a);
    reveal(pow);
    assert(pow(256, b + 1) == 256 * pow(256, b));
}

/// A weight is positive.
pub proof fn lemma_weight_positive(u: Seq<CompositeModel>, c: CompositeModel)
    ensures
        composite_weight(u)(c) >= 1,
{
    lemma_pow_positive(256, count_below(u, c, u.len() as int));
}

/// A rank is not negative. From a factor on it is below the base times the
/// weight of that factor, and from the next factor on below the weight, for
/// a sorted shape with powers of the exponent type among `u`.
pub proof fn lemma_rank_bound(s: Shape, u: Seq<CompositeModel>, i: int)
    requires
        shape_sorted(s),
        shape_fits(s),
        covers(u, s),
        0 <= i <= s.len(),
    ensures
        0 <= rank_from(s, u, i),
        i < s.len() ==> rank_from(s, u, i + 1) < composite_weight(u)(s[i].0),
        i < s.len() ==> rank_from(s, u, i) < 256 * composite_weight(u)(s[i].0),
    decreases s.len() - i,
{
    if i < s.len() {
        lemma_rank_bound(s, u, i + 1);
        let w = composite_weight(u)(s[i].0);
        lemma_weight_positive(u, s[i].0);
        if i + 1 < s.len() {
            assert(compare_composites(s[i].0, s[i + 1].0) == Comparison::Greater);
            assert(u.contains(s[i + 1].0));
            lemma_weight_grows(u, s[i].0, s[i + 1].0);
        }
        let e = s[i].1 as int;
        assert(0 <= e * w <= 255 * w) by (nonlinear_arith)
            requires
                0 <= e <= 255,
                w >= 1,
        ;
    }
}

/// A shape that stands above another from a position on has the greater
/// rank from there on, for canonical shapes with powers of the exponent
/// type among `u`.
pub proof fn lemma_rank_grows_from(a: Shape, b: Shape, u: Seq<CompositeModel>, i: int)
    requires
        shape_wf(a),
        shape_wf(b),
        shape_fits(a),
        shape_fits(b),
        covers(u, a),
        covers(u, b),
        0 <= i <= a.len(),
        i <= b.len(),
        compare_shapes_from(a, b, i) == Comparison::Greater,
    ensures
        rank_from(a, u, i) > rank_from(b, u, i),
    decreases a.len() - i,
{
    lemma_rank_bound(a, u, i);
    lemma_rank_bound(b, u, i);
    if i < a.len() {
        lemma_rank_bound(a, u, i + 1);
        lemma_weight_positive(u, a[i].0);
        let wa = composite_weight(u)(a[i].0);
        let ea = a[i].1 as int;
        assert(ea * wa >= wa) by (nonlinear_arith)
            requires
                ea >= 1,
                wa >= 1,
        ;
        if i < b.len() {
            let wb = composite_weight(u)(b[i].0);
            let eb = b[i].1 as int;
            lemma_compare_composites_equal(a[i].0, b[i].0);
            match compare_composites(a[i].0, b[i].0) {
                Comparison::Greater => {
                    assert(u.contains(b[i].0));
                    lemma_weight_grows(u, a[i].0, b[i].0);
                },
                Comparison::Equal => {
                    if ea > eb {
                        assert(ea * wa >= eb * wa + wa) by (nonlinear_arith)
                            requires
                                ea >= eb + 1,
                                wa >= 1,
                        ;
                    } else {
                        lemma_rank_grows_from(a, b, u, i + 1);
                    }
                },
                Comparison::Less => {},
            }
        }
    }
}

/// A shape that stands above another has the greater rank, for canonical
/// shapes with powers of the exponent type among `u`.
pub proof fn lemma_rank_grows(a: Shape, b: Shape, u: Seq<CompositeModel>)
    requires
        shape_wf(a),
        shape_wf(b),
        shape_fits(a),
        shape_fits(b),
        covers(u, a),
        covers(u, b),
        compare_shapes(a, b) == Comparison::Greater,
    ensures
        rank(a, u) > rank(b, u),
        rank(b, u) >= 0,
{
    lemma_rank_grows_from(a, b, u, 0);
    lemma_rank_bound(b, u, 0);
}

/// The rank of a product is the sum of the ranks.
pub proof fn lemma_rank_of_product(a: Shape, b: Shape, u: Seq<CompositeModel>)
    ensures
        rank(multiply_shapes(a, b), u) == rank(a, u) + rank(b, u),
{
    lemma_factor_sum_product(a, b, 0, 0, composite_weight(u));
}

/// The composites of a product are those of its factors.
pub proof fn lemma_covers_product(u: Seq<CompositeModel>, a: Shape, b: Shape, i: int, j: int)
    requires
        covers(u, a),
        covers(u, b),
        0 <= i <= a.len(),
        0 <= j <= b.len(),
    ensures
        covers(u, multiply_shapes_from(a, b, i, j)),
    decreases a.len() - i + b.len() - j,
{
    let m = multiply_shapes_from(a, b, i, j);
    if i >= a.len() {
        assert forall|k: int| 0 <= k < m.len() implies u.contains((#[trigger] m[k]).0) by {
            assert(m[k] == b[j + k]);
        }
    } else if j >= b.len() {
        assert forall|k: int| 0 <= k < m.len() implies u.contains((#[trigger] m[k]).0) by {
            assert(m[k] == a[i + k]);
        }
    } else {
        let (head, rest) = match compare_composites(a[i].0, b[j].0) {
            Comparison::Greater => {
                lemma_covers_product(u, a, b, i + 1, j);
                (a[i], multiply_shapes_from(a, b, i + 1, j))
            },
            Comparison::Less => {
                lemma_covers_product(u, a, b, i, j + 1);
                (b[j], multiply_shapes_from(a, b, i, j + 1))
            },
            Comparison::Equal => {
                lemma_covers_product(u, a, b, i + 1, j + 1);
                ((a[i].0, a[i].1 + b[j].1), multiply_shapes_from(a, b, i + 1, j + 1))
            },
        };
        assert(m == seq![head] + rest);
        assert(u.contains(a[i].0) && u.contains(b[j].0));
        assert forall|k: int| 0 <= k < m.len() implies u.contains((#[trigger] m[k]).0) by {
            if k > 0 {
                assert(m[k] == rest[k - 1]);
            }
        }
    }
}

/// The composites of a quotient are among those of the dividend.
pub proof fn lemma_covers_quotient(u: Seq<CompositeModel>, s: Shape, d: Shape, i: int)
    requires
        covers(u, s),
        0 <= i <= s.len(),
    ensures
        covers(u, divide_shapes_from(s, d, i)),
    decreases s.len() - i,
{
    let q = divide_shapes_from(s, d, i);
    if i < s.len() {
        lemma_covers_quotient(u, s, d, i + 1);
        let rest = divide_shapes_from(s, d, i + 1);
        assert(u.contains(s[i].0));
        assert forall|k: int| 0 <= k < q.len() implies u.contains((#[trigger] q[k]).0) by {
            if q.len() > rest.len() {
                if k > 0 {
                    assert(q[k] == rest[k - 1]);
                }
            }
        }
    }
}

/// Multiplying by a shape keeps the order: where `a` stands above `b`, the
/// product of `a` and `m` stands above that of `b` and `m`, for canonical
/// shapes with powers of the exponent type.
pub proof fn lemma_product_keeps_order(a: Shape, b: Shape, m: Shape, u: Seq<CompositeModel>)
    requires
        shape_wf(a),
        shape_wf(b),
        shape_wf(m),
        shape_fits(a),
        shape_fits(b),
        shape_fits(multiply_shapes(a, m)),
        shape_fits(multiply_shapes(b, m)),
        covers(u, a),
        covers(u, b),
        covers(u, m),
        compare_shapes(a, b) == Comparison::Greater,
    ensures
        compare_shapes(multiply_shapes(a, m), multiply_shapes(b, m)) == Comparison::Greater,
{
    let am = multiply_shapes(a, m);
    let bm = multiply_shapes(b, m);
    lemma_multiply_shapes_wf(a, m, 0, 0);
    lemma_multiply_shapes_wf(b, m, 0, 0);
    lemma_covers_product(u, a, m, 0, 0);
    lemma_covers_product(u, b, m, 0, 0);
    lemma_rank_grows(a, b, u);
    lemma_rank_of_product(a, m, u);
    lemma_rank_of_product(b, m, u);
    lemma_compare_shapes_equal(am, bm);
    lemma_compare_shapes_reversed(am, bm);
    if compare_shapes(am, bm) == Comparison::Less {
        lemma_rank_grows(bm, am, u);
    }
}

} // verus!
