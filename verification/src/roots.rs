//! Exact integer roots.
use vstd::prelude::*;
use vstd::arithmetic::power::{lemma_pow0, lemma_pow1, pow};
use crate::integer::checked_pow;

verus! {

/// Whether `r` is the `n`-th root of `v` with the sign of `v`. The root of
/// order zero of one is one.
pub open spec fn is_root(r: int, v: int, n: nat) -> bool {
    if n == 0 {
        r == 1 && v == 1
    } else {
        pow(r, n) == v && (v >= 0 ==> r >= 0) && (v < 0 ==> r < 0)
    }
}

/// The `n`-th root of `v` with the sign of `v`, where it is an integer.
pub open spec fn integer_root(v: int, n: nat) -> Option<int> {
    if exists|r: int| is_root(r, v, n) {
        Some(choose|r: int| is_root(r, v, n))
    } else {
        None
    }
}

/// A power of a non-negative base grows strictly with the base.
pub proof fn lemma_pow_grows_with_base(a: int, b: int, n: nat)
    requires
        0 <= a < b,
        n >= 1,
    ensures
        0 <= pow(a, n) < pow(b, n),
    decreases n,
{
    reveal(pow);
    if n == 1 {
        lemma_pow1(a);
        lemma_pow1(b);
    } else {
        lemma_pow_grows_with_base(a, b, (n - 1) as nat);
        let x = pow(a, (n - 1) as nat);
        let y = pow(b, (n - 1) as nat);
        assert(a * x < b * y && 0 <= a * x) by (nonlinear_arith)
            requires
                0 <= a < b,
                0 <= x < y,
        ;
    }
}

/// A power of a non-negative base is at least the base.
pub proof fn lemma_pow_at_least_base(s: int, n: nat)
    requires
        0 <= s,
        n >= 1,
    ensures
        pow(s, n) >= s,
    decreases n,
{
    reveal(pow);
    if n == 1 {
        lemma_pow1(s);
    } else {
        lemma_pow_at_least_base(s, (n - 1) as nat);
        let x = pow(s, (n - 1) as nat);
        assert(s * x >= s) by (nonlinear_arith)
            requires
                0 <= s,
                x >= s,
        ;
    }
}

/// The power of the opposite base: the same power for an even exponent, the
/// opposite power for an odd one.
pub proof fn lemma_pow_of_opposite(s: int, n: nat)
    ensures
        pow(-s, n) == if n % 2 == 0 {
            pow(s, n)
        } else {
            -pow(s, n)
        },
    decreases n,
{
    reveal(pow);
    if n == 0 {
        lemma_pow0(s);
        lemma_pow0(-s);
    } else {
        lemma_pow_of_opposite(s, (n - 1) as nat);
        let x = pow(s, (n - 1) as nat);
        assert((-s) * x == -(s * x)) by (nonlinear_arith);
        assert((-s) * (-x) == s * x) by (nonlinear_arith);
    }
}

/// An integer has at most one root of a given order with its sign.
pub proof fn lemma_root_unique(r1: int, r2: int, v: int, n: nat)
    requires
        is_root(r1, v, n),
        is_root(r2, v, n),
    ensures
        r1 == r2,
{
    if n >= 1 && r1 != r2 {
        if v >= 0 {
            if r1 < r2 {
                lemma_pow_grows_with_base(r1, r2, n);
            } else {
                lemma_pow_grows_with_base(r2, r1, n);
            }
        } else {
            lemma_pow_of_opposite(-r1, n);
            lemma_pow_of_opposite(-r2, n);
            if r1 < r2 {
                lemma_pow_grows_with_base(-r2, -r1, n);
            } else {
                lemma_pow_grows_with_base(-r1, -r2, n);
            }
        }
    }
}

/// A negative integer has no root of even order.
pub proof fn lemma_no_even_root_of_negative(r: int, v: int, n: nat)
    requires
        v < 0,
        n >= 1,
        n % 2 == 0,
    ensures
        !is_root(r, v, n),
{
    if r < 0 {
        lemma_pow_of_opposite(-r, n);
        lemma_pow_at_least_base(-r, n);
    }
}

/// How the power of `x` stands to that of `mid`, for bases of one sign and,
/// where they are negative, an odd exponent.
pub proof fn lemma_pow_order(x: int, mid: int, n: nat)
    requires
        n >= 1,
        (0 <= x && 0 <= mid) || (x < 0 && mid < 0 && n % 2 == 1),
    ensures
        x < mid ==> pow(x, n) < pow(mid, n),
        x > mid ==> pow(x, n) > pow(mid, n),
        0 <= mid ==> pow(mid, n) >= mid,
        mid < 0 ==> pow(mid, n) <= mid,
{
    if 0 <= x {
        if x < mid {
            lemma_pow_grows_with_base(x, mid, n);
        } else if x > mid {
            lemma_pow_grows_with_base(mid, x, n);
        }
        lemma_pow_at_least_base(mid, n);
    } else {
        lemma_pow_of_opposite(-x, n);
        lemma_pow_of_opposite(-mid, n);
        if x < mid {
            lemma_pow_grows_with_base(-mid, -x, n);
        } else if x > mid {
            lemma_pow_grows_with_base(-x, -mid, n);
        }
        lemma_pow_at_least_base(-mid, n);
    }
}

/// The exact `n`-th root of `value` with the sign of `value`, or `None`
/// where no integer is that root. Found by bisection on the candidates
/// between zero and `value`, each tested by raising it to the power.
pub fn nth_root(value: i64, n: u8) -> (r: Option<i64>)
    ensures
        match r {
            Some(x) => integer_root(value as int, n as nat) == Some(x as int),
            None => integer_root(value as int, n as nat).is_none(),
        },
{
    let ghost v = value as int;
    let ghost e = n as nat;
    if n == 0 {
        if value == 1 {
            assert(is_root(1, v, e));
            proof {
                lemma_root_unique(1, choose|r: int| is_root(r, v, e), v, e);
            }
            return Some(1);
        } else {
            return None;
        }
    }
    if value < 0 && n % 2 == 0 {
        assert forall|r: int| !is_root(r, v, e) by {
            lemma_no_even_root_of_negative(r, v, e);
        }
        return None;
    }
    let mut lo: i64 = if value < 0 {
        value
    } else {
        0
    };
    let mut hi: i64 = if value < 0 {
        -1
    } else {
        value
    };
    proof {
        assert forall|r: int| is_root(r, v, e) implies lo <= r <= hi by {
            if v >= 0 {
                lemma_pow_at_least_base(r, e);
            } else {
                lemma_pow_of_opposite(-r, e);
                lemma_pow_at_least_base(-r, e);
            }
        }
    }
    while lo <= hi
        invariant
            v == value as int,
            e == n as nat,
            e >= 1,
            v < 0 ==> e % 2 == 1,
            v >= 0 ==> 0 <= lo && hi <= v,
            v < 0 ==> v <= lo && hi <= -1,
            lo <= hi + 1,
            forall|r: int| is_root(r, v, e) ==> lo <= r <= hi,
        decreases hi - lo + 1,
    {
        let mid = lo + (hi - lo) / 2;
        let p = checked_pow(mid, n as usize);
        proof {
            assert forall|x: int| is_root(x, v, e) implies (x < mid ==> pow(x, e) < pow(
                mid as int,
                e,
            )) && (x > mid ==> pow(x, e) > pow(mid as int, e)) by {
                lemma_pow_order(x, mid as int, e);
            }
            lemma_pow_order(mid as int, mid as int, e);
        }
        let too_small = match p {
            Some(q) => {
                if q == value {
                    assert(is_root(mid as int, v, e));
                    proof {
                        lemma_root_unique(mid as int, choose|r: int| is_root(r, v, e), v, e);
                    }
                    return Some(mid);
                }
                q < value
            },
            None => value < 0,
        };
        if too_small {
            lo = mid + 1;
        } else {
            hi = mid - 1;
        }
    }
    None
}

} // verus!
