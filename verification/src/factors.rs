//! What a shape denotes: the power it gives to each composite. Products act
//! on powers by addition, quotients by subtraction, and a canonical shape
//! is determined by its powers.
use vstd::prelude::*;
use crate::model::{
    compare_composites, shape_sorted, shape_wf, Comparison, CompositeModel, Shape,
};
use crate::order::{lemma_compare_composites_equal, lemma_compare_composites_reversed};
use crate::shape::{
    divide_shapes, divide_shapes_from, lemma_divide_shapes_wf, lemma_multiply_shapes_wf,
    multiply_shapes, multiply_shapes_from, power_in, shape_divides,
};

verus! {

/// The sum, over the factors from position `i` on, of the power times the
/// weight of the composite.
pub open spec fn factor_sum_from(s: Shape, g: spec_fn(CompositeModel) -> int, i: int) -> int
    decreases s.len() - i,
{
    if i < 0 || i >= s.len() {
        0
    } else {
        s[i].1 * g(s[i].0) + factor_sum_from(s, g, i + 1)
    }
}

/// The weight that is one on the composite `c` and zero elsewhere.
pub open spec fn composite_indicator(c: CompositeModel) -> spec_fn(CompositeModel) -> int {
    |x: CompositeModel|
        if x == c {
            1int
        } else {
            0int
        }
}

/// The power that a shape gives to a composite: the sum of the powers of
/// its factors with that composite.
pub open spec fn exponent_of(s: Shape, c: CompositeModel) -> int {
    factor_sum_from(s, composite_indicator(c), 0)
}

/// The factor sum of a shape without its head.
pub proof fn lemma_factor_sum_shift(
    head: (CompositeModel, nat),
    rest: Shape,
    g: spec_fn(CompositeModel) -> int,
    i: int,
)
    requires
        0 <= i <= rest.len(),
    ensures
        factor_sum_from(seq![head] + rest, g, i + 1) == factor_sum_from(rest, g, i),
    decreases rest.len() - i,
{
    let all = seq![head] + rest;
    if i < rest.len() {
        assert(all[i + 1] == rest[i]);
        lemma_factor_sum_shift(head, rest, g, i + 1);
    }
}

/// The factor sum of a shape is that of its head plus that of its rest.
pub proof fn lemma_factor_sum_cons(
    head: (CompositeModel, nat),
    rest: Shape,
    g: spec_fn(CompositeModel) -> int,
)
    ensures
        factor_sum_from(seq![head] + rest, g, 0) == head.1 * g(head.0) + factor_sum_from(
            rest,
            g,
            0,
        ),
{
    let all = seq![head] + rest;
    assert(all[0] == head);
    lemma_factor_sum_shift(head, rest, g, 0);
}

/// The factor sum of what is left of a shape from a position on.
pub proof fn lemma_factor_sum_skip(s: Shape, g: spec_fn(CompositeModel) -> int, i: int, k: int)
    requires
        0 <= i <= s.len(),
        0 <= k <= s.len() - i,
    ensures
        factor_sum_from(s.skip(i), g, k) == factor_sum_from(s, g, i + k),
    decreases s.len() - i - k,
{
    if k < s.len() - i {
        assert(s.skip(i)[k] == s[i + k]);
        lemma_factor_sum_skip(s, g, i, k + 1);
    }
}

/// A factor sum is additive over products of shapes, from any positions on.
pub proof fn lemma_factor_sum_product(
    a: Shape,
    b: Shape,
    i: int,
    j: int,
    g: spec_fn(CompositeModel) -> int,
)
    requires
        0 <= i <= a.len(),
        0 <= j <= b.len(),
    ensures
        factor_sum_from(multiply_shapes_from(a, b, i, j), g, 0) == factor_sum_from(a, g, i)
            + factor_sum_from(b, g, j),
    decreases a.len() - i + b.len() - j,
{
    if i >= a.len() {
        lemma_factor_sum_skip(b, g, j, 0);
    } else if j >= b.len() {
        lemma_factor_sum_skip(a, g, i, 0);
    } else {
        match compare_composites(a[i].0, b[j].0) {
            Comparison::Greater => {
                lemma_factor_sum_product(a, b, i + 1, j, g);
                lemma_factor_sum_cons(a[i], multiply_shapes_from(a, b, i + 1, j), g);
            },
            Comparison::Less => {
                lemma_factor_sum_product(a, b, i, j + 1, g);
                lemma_factor_sum_cons(b[j], multiply_shapes_from(a, b, i, j + 1), g);
            },
            Comparison::Equal => {
                lemma_compare_composites_equal(a[i].0, b[j].0);
                lemma_factor_sum_product(a, b, i + 1, j + 1, g);
                lemma_factor_sum_cons(
                    (a[i].0, a[i].1 + b[j].1),
                    multiply_shapes_from(a, b, i + 1, j + 1),
                    g,
                );
                let x = a[i].1 as int;
                let y = b[j].1 as int;
                let w = g(a[i].0);
                assert((x + y) * w == x * w + y * w) by (nonlinear_arith);
            },
        }
    }
}

/// The powers of a product are the sums of the powers.
pub proof fn lemma_product_exponents(a: Shape, b: Shape, c: CompositeModel)
    ensures
        exponent_of(multiply_shapes(a, b), c) == exponent_of(a, c) + exponent_of(b, c),
{
    lemma_factor_sum_product(a, b, 0, 0, composite_indicator(c));
}

/// The product of canonical shapes does not depend on their order.
pub proof fn lemma_product_commutes(a: Shape, b: Shape)
    requires
        shape_wf(a),
        shape_wf(b),
    ensures
        multiply_shapes(a, b) == multiply_shapes(b, a),
{
    lemma_multiply_shapes_wf(a, b, 0, 0);
    lemma_multiply_shapes_wf(b, a, 0, 0);
    assert forall|c: CompositeModel|
        exponent_of(multiply_shapes(a, b), c) == exponent_of(multiply_shapes(b, a), c) by {
        lemma_product_exponents(a, b, c);
        lemma_product_exponents(b, a, c);
    }
    lemma_shape_unique(multiply_shapes(a, b), multiply_shapes(b, a));
}

/// From a position on, a shape gives a positive power only to the
/// composite of one of its factors.
pub proof fn lemma_exponent_support(s: Shape, c: CompositeModel, i: int)
    requires
        0 <= i <= s.len(),
        factor_sum_from(s, composite_indicator(c), i) != 0,
    ensures
        exists|k: int| i <= k < s.len() && s[k].0 == c,
    decreases s.len() - i,
{
    if i < s.len() {
        if s[i].0 != c {
            assert(s[i].1 * composite_indicator(c)(s[i].0) == 0) by (nonlinear_arith)
                requires
                    composite_indicator(c)(s[i].0) == 0,
            ;
            lemma_exponent_support(s, c, i + 1);
        }
    }
}

/// From a position on, a sorted shape gives to the composite of its factor
/// there the power of that factor.
pub proof fn lemma_leading_exponent(s: Shape, i: int)
    requires
        shape_sorted(s),
        0 <= i < s.len(),
    ensures
        factor_sum_from(s, composite_indicator(s[i].0), i) == s[i].1,
        factor_sum_from(s, composite_indicator(s[i].0), i + 1) == 0,
{
    let c = s[i].0;
    let x = composite_indicator(c)(s[i].0);
    assert(s[i].1 * x == s[i].1) by (nonlinear_arith)
        requires
            x == 1,
    ;
    if factor_sum_from(s, composite_indicator(c), i + 1) != 0 {
        lemma_exponent_support(s, c, i + 1);
        let k = choose|k: int| i + 1 <= k < s.len() && s[k].0 == c;
        assert(compare_composites(s[i].0, s[k].0) == Comparison::Greater);
        lemma_compare_composites_equal(s[i].0, s[k].0);
    }
}

/// Two canonical shapes that agree up to a position, and give the same
/// powers from there on, are the same.
pub proof fn lemma_shapes_agree_from(a: Shape, b: Shape, i: int)
    requires
        shape_wf(a),
        shape_wf(b),
        0 <= i <= a.len(),
        i <= b.len(),
        forall|k: int| 0 <= k < i ==> a[k] == b[k],
        forall|c: CompositeModel|
            factor_sum_from(a, composite_indicator(c), i) == factor_sum_from(
                b,
                composite_indicator(c),
                i,
            ),
    ensures
        a == b,
    decreases a.len() - i,
{
    if i == a.len() {
        if i < b.len() {
            lemma_leading_exponent(b, i);
            assert(factor_sum_from(a, composite_indicator(b[i].0), i) == 0);
        }
        assert(a =~= b);
    } else if i == b.len() {
        lemma_leading_exponent(a, i);
        assert(factor_sum_from(b, composite_indicator(a[i].0), i) == 0);
    } else {
        let ca = a[i].0;
        let cb = b[i].0;
        lemma_leading_exponent(a, i);
        lemma_leading_exponent(b, i);
        lemma_compare_composites_equal(ca, cb);
        lemma_compare_composites_reversed(ca, cb);
        if ca != cb {
            assert(factor_sum_from(b, composite_indicator(ca), i) == a[i].1);
            lemma_exponent_support(b, ca, i);
            let k = choose|k: int| i <= k < b.len() && b[k].0 == ca;
            assert(compare_composites(b[i].0, b[k].0) == Comparison::Greater);
            assert(factor_sum_from(a, composite_indicator(cb), i) == b[i].1);
            lemma_exponent_support(a, cb, i);
            let l = choose|l: int| i <= l < a.len() && a[l].0 == cb;
            assert(compare_composites(a[i].0, a[l].0) == Comparison::Greater);
        }
        assert(a[i] == b[i]);
        assert forall|c: CompositeModel|
            factor_sum_from(a, composite_indicator(c), i + 1) == factor_sum_from(
                b,
                composite_indicator(c),
                i + 1,
            ) by {
            assert(factor_sum_from(a, composite_indicator(c), i) == factor_sum_from(
                b,
                composite_indicator(c),
                i,
            ));
        }
        lemma_shapes_agree_from(a, b, i + 1);
    }
}

/// A canonical shape is determined by the powers it gives: two canonical
/// shapes that give every composite the same power are the same.
pub proof fn lemma_shape_unique(a: Shape, b: Shape)
    requires
        shape_wf(a),
        shape_wf(b),
        forall|c: CompositeModel| exponent_of(a, c) == exponent_of(b, c),
    ensures
        a == b,
{
    assert forall|c: CompositeModel|
        factor_sum_from(a, composite_indicator(c), 0) == factor_sum_from(
            b,
            composite_indicator(c),
            0,
        ) by {
        assert(exponent_of(a, c) == exponent_of(b, c));
    }
    lemma_shapes_agree_from(a, b, 0);
}

/// A sum of powers is not negative.
pub proof fn lemma_exponent_not_negative(s: Shape, c: CompositeModel, i: int)
    requires
        0 <= i <= s.len(),
    ensures
        factor_sum_from(s, composite_indicator(c), i) >= 0,
    decreases s.len() - i,
{
    if i < s.len() {
        lemma_exponent_not_negative(s, c, i + 1);
        let x = composite_indicator(c)(s[i].0);
        assert(s[i].1 * x >= 0) by (nonlinear_arith)
            requires
                x == 0 || x == 1,
                s[i].1 >= 0,
        ;
    }
}

/// A sum of powers from a position on is the sum from a later position on
/// where no factor in between has the composite.
pub proof fn lemma_exponent_skips(s: Shape, c: CompositeModel, i: int, k: int)
    requires
        0 <= i <= k <= s.len(),
        forall|j: int| i <= j < k ==> s[j].0 != c,
    ensures
        factor_sum_from(s, composite_indicator(c), i) == factor_sum_from(
            s,
            composite_indicator(c),
            k,
        ),
    decreases k - i,
{
    if i < k {
        lemma_exponent_skips(s, c, i + 1, k);
        let x = composite_indicator(c)(s[i].0);
        assert(s[i].1 * x == 0) by (nonlinear_arith)
            requires
                x == 0,
        ;
    }
}

/// A sorted shape gives to the composite of a factor the power of that
/// factor, by either count.
pub proof fn lemma_power_of_factor(s: Shape, k: int)
    requires
        shape_sorted(s),
        0 <= k < s.len(),
    ensures
        power_in(s, s[k].0) == s[k].1,
        exponent_of(s, s[k].0) == s[k].1,
    decreases s.len(),
{
    let c = s[k].0;
    assert forall|j: int| 0 <= j < s.len() && j != k implies s[j].0 != c by {
        lemma_compare_composites_equal(s[j].0, c);
        if j < k {
            assert(compare_composites(s[j].0, s[k].0) == Comparison::Greater);
        } else {
            assert(compare_composites(s[k].0, s[j].0) == Comparison::Greater);
            lemma_compare_composites_reversed(s[k].0, s[j].0);
        }
    }
    lemma_exponent_skips(s, c, 0, k);
    lemma_leading_exponent(s, k);
    if k < s.len() - 1 {
        let shorter = s.drop_last();
        assert(shorter[k] == s[k]);
        assert(shape_sorted(shorter)) by {
            assert forall|x: int, y: int| 0 <= x < y < shorter.len() implies #[trigger]
                compare_composites(shorter[x].0, shorter[y].0) == Comparison::Greater by {
                assert(compare_composites(s[x].0, s[y].0) == Comparison::Greater);
            }
        }
        lemma_power_of_factor(shorter, k);
    }
}

/// A shape gives the power zero to a composite of none of its factors, by
/// either count.
pub proof fn lemma_power_of_stranger(s: Shape, c: CompositeModel)
    requires
        forall|k: int| 0 <= k < s.len() ==> s[k].0 != c,
    ensures
        power_in(s, c) == 0,
        exponent_of(s, c) == 0,
    decreases s.len(),
{
    lemma_exponent_skips(s, c, 0, s.len() as int);
    if s.len() > 0 {
        let shorter = s.drop_last();
        assert forall|k: int| 0 <= k < shorter.len() implies shorter[k].0 != c by {
            assert(shorter[k] == s[k]);
        }
        lemma_power_of_stranger(shorter, c);
    }
}

/// The two counts of the power of a composite agree on sorted shapes.
pub proof fn lemma_power_is_exponent(s: Shape, c: CompositeModel)
    requires
        shape_sorted(s),
    ensures
        power_in(s, c) == exponent_of(s, c),
{
    if exists|k: int| 0 <= k < s.len() && s[k].0 == c {
        let k = choose|k: int| 0 <= k < s.len() && s[k].0 == c;
        lemma_power_of_factor(s, k);
    } else {
        lemma_power_of_stranger(s, c);
    }
}

/// The powers of a quotient from a position on: what the dividend gives
/// beyond the divisor.
pub proof fn lemma_quotient_exponents_from(s: Shape, d: Shape, c: CompositeModel, i: int)
    requires
        shape_sorted(s),
        0 <= i <= s.len(),
    ensures
        factor_sum_from(divide_shapes_from(s, d, i), composite_indicator(c), 0) == if factor_sum_from(
            s,
            composite_indicator(c),
            i,
        ) > power_in(d, c) {
            factor_sum_from(s, composite_indicator(c), i) - power_in(d, c)
        } else {
            0
        },
    decreases s.len() - i,
{
    let g = composite_indicator(c);
    if i < s.len() {
        lemma_quotient_exponents_from(s, d, c, i + 1);
        lemma_exponent_not_negative(s, c, i + 1);
        let rest = divide_shapes_from(s, d, i + 1);
        let x = g(s[i].0);
        if s[i].0 == c {
            lemma_leading_exponent(s, i);
        } else {
            assert(s[i].1 * x == 0) by (nonlinear_arith)
                requires
                    x == 0,
            ;
        }
        if s[i].1 > power_in(d, s[i].0) {
            let e = (s[i].1 - power_in(d, s[i].0)) as nat;
            lemma_factor_sum_cons((s[i].0, e), rest, g);
            assert(e * x == if s[i].0 == c {
                e as int
            } else {
                0
            }) by (nonlinear_arith)
                requires
                    x == (if s[i].0 == c {
                        1int
                    } else {
                        0int
                    }),
            ;
        }
    }
}

/// Where a canonical shape `d` divides a canonical shape `s`, the product
/// of `d` and the quotient is `s`.
pub proof fn lemma_quotient_times_divisor(s: Shape, d: Shape)
    requires
        shape_wf(s),
        shape_wf(d),
        shape_divides(d, s),
    ensures
        multiply_shapes(d, divide_shapes(s, d)) == s,
{
    let x = divide_shapes(s, d);
    lemma_divide_shapes_wf(s, d, 0);
    lemma_multiply_shapes_wf(d, x, 0, 0);
    assert forall|c: CompositeModel| exponent_of(multiply_shapes(d, x), c) == exponent_of(
        s,
        c,
    ) by {
        lemma_product_exponents(d, x, c);
        lemma_quotient_exponents_from(s, d, c, 0);
        lemma_power_is_exponent(d, c);
        lemma_power_is_exponent(s, c);
        lemma_exponent_not_negative(s, c, 0);
        if exists|k: int| 0 <= k < d.len() && d[k].0 == c {
            let k = choose|k: int| 0 <= k < d.len() && d[k].0 == c;
            lemma_power_of_factor(d, k);
            assert(power_in(s, d[k].0) >= d[k].1);
        } else {
            lemma_power_of_stranger(d, c);
        }
    }
    lemma_shape_unique(multiply_shapes(d, x), s);
}

} // verus!
