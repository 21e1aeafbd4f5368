//! Integer arithmetic on coefficients: quotients, powers, and the range of
//! the machine type.
use vstd::prelude::*;
use vstd::arithmetic::div_mod::{lemma_fundamental_div_mod, lemma_mod_bound};
use vstd::arithmetic::power::pow;

verus! {

/// Whether an integer is a value of the coefficient type.
pub open spec fn fits_i64(x: int) -> bool {
    i64::MIN <= x <= i64::MAX
}

/// The quotient rounded toward zero.
pub open spec fn truncated_quotient(a: int, b: int) -> int
    recommends
        b != 0,
{
    if a >= 0 {
        a / b
    } else {
        -((-a) / b)
    }
}

/// What the quotient rounded toward zero leaves over.
pub open spec fn truncated_remainder(a: int, b: int) -> int
    recommends
        b != 0,
{
    a - b * truncated_quotient(a, b)
}

/// The quotient rounded toward negative infinity.
pub open spec fn floor_quotient(a: int, b: int) -> int
    recommends
        b != 0,
{
    if b > 0 {
        a / b
    } else {
        (-a) / (-b)
    }
}

/// The quotient rounded toward positive infinity.
pub open spec fn ceil_quotient(a: int, b: int) -> int
    recommends
        b != 0,
{
    -floor_quotient(-a, b)
}

/// Calls `num::Integer::div_rem` for `i64`, which divides with `/` and `%`:
/// the quotient rounded toward zero and its remainder. The divisor is not
/// zero and the quotient is representable.
#[verifier::external_body]
pub(crate) fn div_rem(a: i64, b: i64) -> (r: (i64, i64))
    requires
        b != 0,
        !(a == i64::MIN && b == -1),
    ensures
        r.0 == truncated_quotient(a as int, b as int),
        r.1 == truncated_remainder(a as int, b as int),
{
    num::Integer::div_rem(&a, &b)
}

/// Calls `num::Integer::div_floor` for `i64`: the quotient rounded toward
/// negative infinity. The divisor is not zero and the quotient is
/// representable.
#[verifier::external_body]
pub(crate) fn div_floor(a: i64, b: i64) -> (r: i64)
    requires
        b != 0,
        !(a == i64::MIN && b == -1),
    ensures
        r == floor_quotient(a as int, b as int),
{
    num::Integer::div_floor(&a, &b)
}

/// Calls `num::checked_pow` for `i64`: the power by repeated squaring with
/// checked multiplications, or `None` where a product overflows, which
/// happens exactly when the power itself is out of range.
#[verifier::external_body]
pub(crate) fn checked_pow(base: i64, exp: usize) -> (r: Option<i64>)
    ensures
        r == if fits_i64(pow(base as int, exp as nat)) {
            Some(pow(base as int, exp as nat) as i64)
        } else {
            None
        },
{
    num::checked_pow(base, exp)
}

/// The floor of a quotient is the greatest integer whose product with the
/// divisor is not beyond the dividend.
pub proof fn lemma_floor_quotient(a: int, b: int)
    requires
        b != 0,
    ensures
        b > 0 ==> floor_quotient(a, b) * b <= a < (floor_quotient(a, b) + 1) * b,
        b < 0 ==> (floor_quotient(a, b) + 1) * b < a <= floor_quotient(a, b) * b,
{
    if b > 0 {
        lemma_fundamental_div_mod(a, b);
        lemma_mod_bound(a, b);
        let q = a / b;
        let r = a % b;
        assert(q * b <= a < (q + 1) * b) by (nonlinear_arith)
            requires
                a == b * q + r,
                0 <= r < b,
        ;
    } else {
        lemma_fundamental_div_mod(-a, -b);
        lemma_mod_bound(-a, -b);
        let q = (-a) / (-b);
        let r = (-a) % (-b);
        assert((q + 1) * b < a <= q * b) by (nonlinear_arith)
            requires
                -a == (-b) * q + r,
                0 <= r < -b,
        ;
    }
}

/// The ceiling of a quotient is the least integer whose product with the
/// divisor is not short of the dividend.
pub proof fn lemma_ceil_quotient(a: int, b: int)
    requires
        b != 0,
    ensures
        b > 0 ==> (ceil_quotient(a, b) - 1) * b < a <= ceil_quotient(a, b) * b,
        b < 0 ==> ceil_quotient(a, b) * b <= a < (ceil_quotient(a, b) - 1) * b,
{
    lemma_floor_quotient(-a, b);
    let f = floor_quotient(-a, b);
    let c = ceil_quotient(a, b);
    if b > 0 {
        assert((c - 1) * b < a <= c * b) by (nonlinear_arith)
            requires
                c == -f,
                f * b <= -a < (f + 1) * b,
        ;
    } else {
        assert(c * b <= a < (c - 1) * b) by (nonlinear_arith)
            requires
                c == -f,
                (f + 1) * b < -a <= f * b,
        ;
    }
}

/// An integer that stands to the dividend as the ceiling of the quotient
/// does is that ceiling.
pub proof fn lemma_ceil_quotient_unique(a: int, b: int, q: int)
    requires
        b != 0,
        b > 0 ==> (q - 1) * b < a <= q * b,
        b < 0 ==> q * b <= a < (q - 1) * b,
    ensures
        q == ceil_quotient(a, b),
{
    lemma_ceil_quotient(a, b);
    let c = ceil_quotient(a, b);
    if b > 0 {
        assert(q == c) by (nonlinear_arith)
            requires
                b > 0,
                (q - 1) * b < a <= q * b,
                (c - 1) * b < a <= c * b,
        ;
    } else {
        assert(q == c) by (nonlinear_arith)
            requires
                b < 0,
                q * b <= a < (q - 1) * b,
                c * b <= a < (c - 1) * b,
        ;
    }
}

/// The quotient rounded toward zero leaves a remainder smaller in magnitude
/// than the divisor.
pub proof fn lemma_truncated_remainder_bound(a: int, b: int)
    requires
        b != 0,
    ensures
        b > 0 ==> -b < truncated_remainder(a, b) < b,
        b < 0 ==> b < truncated_remainder(a, b) < -b,
{
    let x = if a >= 0 {
        a
    } else {
        -a
    };
    let q = x / b;
    let r = x % b;
    lemma_fundamental_div_mod(x, b);
    assert(x == b * q + r);
    if b > 0 {
        lemma_mod_bound(x, b);
    } else {
        assert(0 <= r < -b) by (nonlinear_arith)
            requires
                b < 0,
                r == x % b,
        ;
    }
    assert(truncated_remainder(a, b) == if a >= 0 {
        r
    } else {
        -r
    }) by (nonlinear_arith)
        requires
            x == b * q + r,
            x == (if a >= 0 {
                a
            } else {
                -a
            }),
            truncated_remainder(a, b) == a - b * (if a >= 0 {
                q
            } else {
                -q
            }),
    ;
}

/// A quotient that leaves a remainder is smaller in magnitude than the
/// dividend, so one more than it is in range.
pub proof fn lemma_quotient_with_remainder_below_max(a: int, b: int)
    requires
        fits_i64(a),
        fits_i64(b),
        b != 0,
        truncated_remainder(a, b) != 0,
    ensures
        truncated_quotient(a, b) < i64::MAX,
{
    let q = truncated_quotient(a, b);
    if q >= i64::MAX {
        assert(false) by (nonlinear_arith)
            requires
                q >= 9223372036854775807,
                -9223372036854775808 <= a <= 9223372036854775807,
                b != 0,
                q == truncated_quotient(a, b),
                a - b * q != 0,
        ;
    }
}

/// The quotient rounded toward positive infinity: the quotient rounded
/// toward zero, plus one where the division leaves a remainder with the
/// sign of the divisor. The divisor is not zero and the quotient is
/// representable.
pub fn ceil_div(a: i64, b: i64) -> (r: i64)
    requires
        b != 0,
        !(a == i64::MIN && b == -1),
    ensures
        r == ceil_quotient(a as int, b as int),
{
    let (d, rem) = div_rem(a, b);
    proof {
        lemma_truncated_remainder_bound(a as int, b as int);
    }
    if (rem > 0 && b > 0) || (rem < 0 && b < 0) {
        proof {
            lemma_quotient_with_remainder_below_max(a as int, b as int);
            let q = d + 1;
            assert((b > 0 ==> (q - 1) * b < a <= q * b) && (b < 0 ==> q * b <= a < (q - 1) * b))
                by (nonlinear_arith)
                requires
                    q == d + 1,
                    rem == a - b * d,
                    (rem > 0 && b > 0 && rem < b) || (rem < 0 && b < 0 && b < rem),
            ;
            lemma_ceil_quotient_unique(a as int, b as int, q);
        }
        d + 1
    } else {
        proof {
            let q = d as int;
            assert((b > 0 ==> (q - 1) * b < a <= q * b) && (b < 0 ==> q * b <= a < (q - 1) * b))
                by (nonlinear_arith)
                requires
                    rem == a - b * q,
                    (b > 0 && -b < rem <= 0) || (b < 0 && 0 <= rem < -b),
            ;
            lemma_ceil_quotient_unique(a as int, b as int, q);
        }
        d
    }
}

/// The negation, or `None` where it is out of range.
pub fn checked_neg(a: i64) -> (r: Option<i64>)
    ensures
        r == if fits_i64(-(a as int)) {
            Some((-(a as int)) as i64)
        } else {
            None
        },
{
    if a == i64::MIN {
        None
    } else {
        Some(-a)
    }
}

/// The quotient where the division is exact and representable, else `None`.
pub fn checked_exact_div(a: i64, b: i64) -> (r: Option<i64>)
    ensures
        r == exact_quotient(a as int, b as int),
{
    if b == 0 || (a == i64::MIN && b == -1) {
        None
    } else {
        let (d, rem) = div_rem(a, b);
        if rem == 0 {
            Some(d)
        } else {
            None
        }
    }
}

/// The integer `q` with `a == b * q`, where there is one, `b` is not zero
/// and `q` is representable.
pub open spec fn exact_quotient(a: int, b: int) -> Option<i64> {
    if b != 0 && truncated_remainder(a, b) == 0 && fits_i64(truncated_quotient(a, b)) {
        Some(truncated_quotient(a, b) as i64)
    } else {
        None
    }
}

} // verus!
