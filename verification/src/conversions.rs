//! Conversions of constants and monomials into monomials and polynomials,
//! and the default values.
use vstd::prelude::*;
use vstd::std_specs::convert::FromSpecImpl;
use crate::algebra::{
    constant_monomial, constant_polynomial, monomial_polynomial, zero_polynomial,
};
use crate::monomial::Monomial;
use crate::polynomial::Polynomial;

verus! {

impl From<i64> for Monomial {
    /// The constant monomial with the given value.
    fn from(value: i64) -> (r: Monomial)
        ensures
            r@ == constant_monomial(value as int),
    {
        Monomial::constant(value)
    }
}

impl FromSpecImpl<i64> for Monomial {
    open spec fn obeys_from_spec() -> bool {
        false
    }

    open spec fn from_spec(value: i64) -> Monomial {
        arbitrary()
    }
}

impl From<i64> for Polynomial {
    /// The constant polynomial with the given value.
    fn from(value: i64) -> (r: Polynomial)
        ensures
            r@ == constant_polynomial(value as int),
    {
        Polynomial::constant(value)
    }
}

impl FromSpecImpl<i64> for Polynomial {
    open spec fn obeys_from_spec() -> bool {
        false
    }

    open spec fn from_spec(value: i64) -> Polynomial {
        arbitrary()
    }
}

impl From<&Monomial> for Polynomial {
    /// The polynomial with the single term `m`, or zero where the
    /// coefficient of `m` is zero.
    fn from(m: &Monomial) -> (r: Polynomial)
        ensures
            r@ == monomial_polynomial(m@),
    {
        Polynomial::from_monomial(m)
    }
}

impl FromSpecImpl<&Monomial> for Polynomial {
    open spec fn obeys_from_spec() -> bool {
        false
    }

    open spec fn from_spec(m: &Monomial) -> Polynomial {
        arbitrary()
    }
}

impl From<Monomial> for Polynomial {
    /// The polynomial with the single term `m`, or zero where the
    /// coefficient of `m` is zero.
    fn from(m: Monomial) -> (r: Polynomial)
        ensures
            r@ == monomial_polynomial(m@),
    {
        Polynomial::from_monomial(&m)
    }
}

impl FromSpecImpl<Monomial> for Polynomial {
    open spec fn obeys_from_spec() -> bool {
        false
    }

    open spec fn from_spec(m: Monomial) -> Polynomial {
        arbitrary()
    }
}

impl Default for Monomial {
    /// The constant monomial zero.
    fn default() -> (r: Monomial)
        ensures
            r@ == constant_monomial(0),
    {
        Monomial::constant(0)
    }
}

impl Default for Polynomial {
    /// The zero polynomial.
    fn default() -> (r: Polynomial)
        ensures
            r@ == zero_polynomial(),
    {
        Polynomial::zero()
    }
}

} // verus!
