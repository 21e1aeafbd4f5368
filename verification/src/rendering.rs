//! Text: numbers, composites, monomials and polynomials as strings, with
//! the names of the variables supplied by the caller.
use vstd::prelude::*;
use vstd::string::StringExecFns;
use crate::composite::Composite;
use crate::model::{CompositeModel, Identifier, MonomialModel, PolynomialModel};
use crate::monomial::Monomial;
use crate::polynomial::Polynomial;

verus! {

/// The name of each variable.
pub type Names = spec_fn(Identifier) -> Seq<char>;

/// The text of a decimal digit.
pub open spec fn digit_text(d: int) -> Seq<char> {
    if d == 0 {
        "0"@
    } else if d == 1 {
        "1"@
    } else if d == 2 {
        "2"@
    } else if d == 3 {
        "3"@
    } else if d == 4 {
        "4"@
    } else if d == 5 {
        "5"@
    } else if d == 6 {
        "6"@
    } else if d == 7 {
        "7"@
    } else if d == 8 {
        "8"@
    } else {
        "9"@
    }
}

/// The decimal text of a natural number.
pub open spec fn natural_text(n: nat) -> Seq<char>
    decreases n,
{
    if n < 10 {
        digit_text(n as int)
    } else {
        natural_text(n / 10) + digit_text((n % 10) as int)
    }
}

/// The decimal text of an integer, with a minus sign before a negative one.
pub open spec fn integer_text(n: int) -> Seq<char> {
    if n < 0 {
        "-"@ + natural_text((-n) as nat)
    } else {
        natural_text(n as nat)
    }
}

/// The names that are the decimal texts of the identifiers.
pub open spec fn decimal_names() -> Names {
    |id: Identifier| natural_text(id as nat)
}

/// The text of an operation on two operands.
pub open spec fn operation_text(name: Seq<char>, left: Seq<char>, right: Seq<char>) -> Seq<char> {
    name + "("@ + left + ", "@ + right + ")"@
}

/// The text of a composite: the name of a variable, or the name of the
/// operation and its operands in brackets.
pub open spec fn composite_text(c: CompositeModel, names: Names) -> Seq<char>
    decreases c, 0nat,
{
    match c {
        CompositeModel::Variable(id) => names(id),
        CompositeModel::Floor(l, r) => operation_text(
            "floor"@,
            polynomial_text(l, names),
            polynomial_text(r, names),
        ),
        CompositeModel::Ceil(l, r) => operation_text(
            "ceil"@,
            polynomial_text(l, names),
            polynomial_text(r, names),
        ),
        CompositeModel::Min(l, r) => operation_text(
            "min"@,
            polynomial_text(l, names),
            polynomial_text(r, names),
        ),
        CompositeModel::Max(l, r) => operation_text(
            "max"@,
            polynomial_text(l, names),
            polynomial_text(r, names),
        ),
    }
}

/// The text of a composite raised to a power: the power is written, after a
/// caret, unless it is one; a factor to the power zero has no text.
pub open spec fn power_text(c: Seq<char>, e: nat) -> Seq<char> {
    if e == 1 {
        c
    } else if e != 0 {
        c + "^"@ + natural_text(e)
    } else {
        Seq::empty()
    }
}

/// The text that stands for the coefficient before the factors: nothing
/// for one, a minus sign and a space for minus one, else the magnitude,
/// after a minus sign and a space where the coefficient is negative.
pub open spec fn coefficient_text(c: int) -> Seq<char> {
    if c == -1 {
        "- "@
    } else if c < 0 {
        "- "@ + natural_text((-c) as nat)
    } else if c != 1 {
        natural_text(c as nat)
    } else {
        Seq::empty()
    }
}

/// The text of the coefficient and the first `n` factors of a monomial.
pub open spec fn factors_text_upto(m: MonomialModel, names: Names, n: int) -> Seq<char>
    decreases m, n,
{
    if n <= 0 || n > m.powers.len() {
        coefficient_text(m.coefficient)
    } else {
        factors_text_upto(m, names, n - 1) + power_text(
            composite_text(m.powers[n - 1].0, names),
            m.powers[n - 1].1,
        )
    }
}

/// The text of a monomial: `0` for zero, `1` and `- 1` for these constants,
/// else the coefficient followed by the factors.
pub open spec fn monomial_text(m: MonomialModel, names: Names) -> Seq<char>
    decreases m, m.powers.len() + 1,
{
    if m.coefficient == 0 {
        "0"@
    } else if m.coefficient == 1 && m.powers.len() == 0 {
        "1"@
    } else if m.coefficient == -1 && m.powers.len() == 0 {
        "- 1"@
    } else {
        factors_text_upto(m, names, m.powers.len() as int)
    }
}

/// What joins a term to the terms before it.
pub open spec fn joint_text(c: int) -> Seq<char> {
    if c > 0 {
        " + "@
    } else {
        " "@
    }
}

/// The text of the first `n` terms of a polynomial.
pub open spec fn terms_text_upto(p: PolynomialModel, names: Names, n: int) -> Seq<char>
    decreases p, n,
{
    if n <= 0 || n > p.monomials.len() {
        Seq::empty()
    } else if n == 1 {
        monomial_text(p.monomials[0], names)
    } else {
        terms_text_upto(p, names, n - 1) + joint_text(p.monomials[n - 1].coefficient)
            + monomial_text(p.monomials[n - 1], names)
    }
}

/// The text of a polynomial: `0` for zero, else its terms, each joined to
/// the ones before by a plus sign where its coefficient is positive.
pub open spec fn polynomial_text(p: PolynomialModel, names: Names) -> Seq<char>
    decreases p, p.monomials.len() + 1,
{
    if p.monomials.len() == 0 {
        "0"@
    } else {
        terms_text_upto(p, names, p.monomials.len() as int)
    }
}

/// Whether a formatter gives each variable the name that `names` gives it.
pub open spec fn formats_as<F: Fn(Identifier) -> String>(format: &F, names: Names) -> bool {
    forall|id: Identifier, s: String| #[trigger] format.ensures((id,), s) ==> s@ == names(id)
}

/// The text of a decimal digit.
pub fn digit(d: u8) -> (r: &'static str)
    requires
        d < 10,
    ensures
        r@ == digit_text(d as int),
{
    if d == 0 {
        "0"
    } else if d == 1 {
        "1"
    } else if d == 2 {
        "2"
    } else if d == 3 {
        "3"
    } else if d == 4 {
        "4"
    } else if d == 5 {
        "5"
    } else if d == 6 {
        "6"
    } else if d == 7 {
        "7"
    } else if d == 8 {
        "8"
    } else {
        "9"
    }
}

/// Appends the decimal text of a natural number.
pub fn append_natural(out: &mut String, n: u64)
    ensures
        final(out)@ == old(out)@ + natural_text(n as nat),
    decreases n,
{
    if n >= 10 {
        append_natural(out, n / 10);
    }
    out.append(digit((n % 10) as u8));
    assert(out@ =~= old(out)@ + natural_text(n as nat));
}

/// The magnitude of an integer.
pub fn magnitude(n: i64) -> (r: u64)
    ensures
        r == if n < 0 {
            -(n as int)
        } else {
            n as int
        },
{
    if n == i64::MIN {
        9223372036854775808u64
    } else if n < 0 {
        (-n) as u64
    } else {
        n as u64
    }
}

/// Appends the decimal text of an integer.
pub fn append_integer(out: &mut String, n: i64)
    ensures
        final(out)@ == old(out)@ + integer_text(n as int),
{
    if n < 0 {
        out.append("-");
    }
    append_natural(out, magnitude(n));
    assert(out@ =~= old(out)@ + integer_text(n as int));
}

/// The decimal text of an identifier.
pub fn decimal_name(id: Identifier) -> (r: String)
    ensures
        r@ == natural_text(id as nat),
{
    let mut out = String::new();
    append_natural(&mut out, id as u64);
    assert(out@ =~= natural_text(id as nat));
    out
}

/// Appends the text of an operation on two operands.
fn append_operation<F: Fn(Identifier) -> String>(
    out: &mut String,
    parent: &Composite,
    name: &str,
    l: &Polynomial,
    r: &Polynomial,
    format: &F,
)
    requires
        decreases_to!(parent => l),
        decreases_to!(parent => r),
        forall|id: Identifier| format.requires((id,)),
    ensures
        forall|names: Names| #[trigger]
            formats_as(format, names) ==> final(out)@ == old(out)@ + operation_text(
                name@,
                polynomial_text(l@, names),
                polynomial_text(r@, names),
            ),
    decreases parent, 0nat,
{
    out.append(name);
    out.append("(");
    let left = l.to_code(format);
    out.append(left.as_str());
    out.append(", ");
    let right = r.to_code(format);
    out.append(right.as_str());
    out.append(")");
    assert forall|names: Names| #[trigger] formats_as(format, names) implies out@ == old(out)@
        + operation_text(name@, polynomial_text(l@, names), polynomial_text(r@, names)) by {
        assert(out@ =~= old(out)@ + operation_text(
            name@,
            polynomial_text(l@, names),
            polynomial_text(r@, names),
        ));
    }
}

impl Composite {
    /// The text of the composite, with the variables named by `format`:
    /// the name of a variable, or `floor`, `ceil`, `min` or `max` with the
    /// operands in brackets.
    pub fn to_code<F: Fn(Identifier) -> String>(&self, format: &F) -> (r: String)
        requires
            forall|id: Identifier| format.requires((id,)),
        ensures
            forall|names: Names| #[trigger]
                formats_as(format, names) ==> r@ == composite_text(self@, names),
        decreases self, 1nat,
    {
        let mut out = String::new();
        match self {
            Composite::Variable(id) => {
                return format(*id);
            },
            Composite::Floor(l, r) => append_operation(&mut out, self, "floor", l, r, format),
            Composite::Ceil(l, r) => append_operation(&mut out, self, "ceil", l, r, format),
            Composite::Min(l, r) => append_operation(&mut out, self, "min", l, r, format),
            Composite::Max(l, r) => append_operation(&mut out, self, "max", l, r, format),
        }
        assert forall|names: Names| #[trigger] formats_as(format, names) implies out@
            == composite_text(self@, names) by {
            assert(out@ =~= composite_text(self@, names));
        }
        out
    }

    /// The text of the composite, with the variables named by the decimal
    /// texts of their identifiers.
    pub fn to_string(&self) -> (r: String)
        ensures
            r@ == composite_text(self@, decimal_names()),
    {
        let format = |id: Identifier| -> (s: String)
            ensures
                s@ == natural_text(id as nat),
            { decimal_name(id) };
        let r = self.to_code(&format);
        assert(formats_as(&format, decimal_names()));
        r
    }
}

/// Appends the text that stands for a coefficient before the factors.
fn append_coefficient(out: &mut String, c: i64)
    ensures
        final(out)@ == old(out)@ + coefficient_text(c as int),
{
    if c == -1 {
        out.append("- ");
    } else if c < 0 {
        out.append("- ");
        append_natural(out, magnitude(c));
    } else if c != 1 {
        append_natural(out, magnitude(c));
    }
    assert(out@ =~= old(out)@ + coefficient_text(c as int));
}

impl Monomial {
    /// The text of the monomial, with the variables named by `format`: the
    /// coefficient, unless it is one, and then each factor, with its power
    /// after a caret unless that is one.
    pub fn to_code<F: Fn(Identifier) -> String>(&self, format: &F) -> (r: String)
        requires
            forall|id: Identifier| format.requires((id,)),
        ensures
            forall|names: Names| #[trigger]
                formats_as(format, names) ==> r@ == monomial_text(self@, names),
        decreases self, 0nat,
    {
        if self.coefficient == 0 {
            return String::from_str("0");
        }
        if self.coefficient == 1 && self.powers.len() == 0 {
            return String::from_str("1");
        }
        if self.coefficient == -1 && self.powers.len() == 0 {
            return String::from_str("- 1");
        }
        let mut out = String::new();
        append_coefficient(&mut out, self.coefficient);
        assert(out@ =~= coefficient_text(self@.coefficient));
        let mut k: usize = 0;
        while k < self.powers.len()
            invariant
                k <= self.powers.len(),
                forall|id: Identifier| format.requires((id,)),
                forall|names: Names| #[trigger]
                    formats_as(format, names) ==> out@ == factors_text_upto(
                        self@,
                        names,
                        k as int,
                    ),
            decreases self.powers.len() - k,
        {
            assert(self@.powers[k as int] == (
                self.powers@[k as int].0@,
                self.powers@[k as int].1 as nat,
            ));
            let ghost before = out@;
            let e = self.powers[k].1;
            if e != 0 {
                let c = self.powers[k].0.to_code(format);
                out.append(c.as_str());
                if e != 1 {
                    out.append("^");
                    append_natural(&mut out, e as u64);
                }
            }
            assert forall|names: Names| #[trigger] formats_as(format, names) implies out@
                == factors_text_upto(self@, names, k + 1) by {
                assert(out@ =~= before + power_text(
                    composite_text(self@.powers[k as int].0, names),
                    e as nat,
                ));
            }
            k += 1;
        }
        out
    }

    /// The text of the monomial, with the variables named by the decimal
    /// texts of their identifiers.
    pub fn to_string(&self) -> (r: String)
        ensures
            r@ == monomial_text(self@, decimal_names()),
    {
        let format = |id: Identifier| -> (s: String)
            ensures
                s@ == natural_text(id as nat),
            { decimal_name(id) };
        let r = self.to_code(&format);
        assert(formats_as(&format, decimal_names()));
        r
    }
}

impl Polynomial {
    /// The text of the polynomial, with the variables named by `format`:
    /// `0` for zero, else the terms, each joined to the ones before by a
    /// plus sign where its coefficient is positive.
    pub fn to_code<F: Fn(Identifier) -> String>(&self, format: &F) -> (r: String)
        requires
            forall|id: Identifier| format.requires((id,)),
        ensures
            forall|names: Names| #[trigger]
                formats_as(format, names) ==> r@ == polynomial_text(self@, names),
        decreases self, 0nat,
    {
        if self.monomials.len() == 0 {
            return String::from_str("0");
        }
        assert(self@.monomials[0] == self.monomials@[0]@);
        let mut out = self.monomials[0].to_code(format);
        let mut k: usize = 1;
        while k < self.monomials.len()
            invariant
                1 <= k <= self.monomials.len(),
                forall|id: Identifier| format.requires((id,)),
                forall|names: Names| #[trigger]
                    formats_as(format, names) ==> out@ == terms_text_upto(self@, names, k as int),
            decreases self.monomials.len() - k,
        {
            assert(self@.monomials[k as int] == self.monomials@[k as int]@);
            let ghost before = out@;
            if self.monomials[k].coefficient > 0 {
                out.append(" + ");
            } else {
                out.append(" ");
            }
            let m = self.monomials[k].to_code(format);
            out.append(m.as_str());
            assert forall|names: Names| #[trigger] formats_as(format, names) implies out@
                == terms_text_upto(self@, names, k + 1) by {
                assert(out@ =~= before + joint_text(self@.monomials[k as int].coefficient)
                    + monomial_text(self@.monomials[k as int], names));
            }
            k += 1;
        }
        out
    }

    /// The text of the polynomial, with the variables named by the decimal
    /// texts of their identifiers.
    pub fn to_string(&self) -> (r: String)
        ensures
            r@ == polynomial_text(self@, decimal_names()),
    {
        let format = |id: Identifier| -> (s: String)
            ensures
                s@ == natural_text(id as nat),
            { decimal_name(id) };
        let r = self.to_code(&format);
        assert(formats_as(&format, decimal_names()));
        r
    }
}

} // verus!
