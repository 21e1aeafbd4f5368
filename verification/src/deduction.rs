//! Deduction of the values of variables from a system of equations, each a
//! polynomial and the value it takes.
use vstd::prelude::*;
use std::collections::HashMap;
use crate::evaluation::{Assignment, EvalError};
use crate::integer::{checked_exact_div, exact_quotient, fits_i64};
use crate::laws::law_deduction_finds_a_solution;
use crate::meaning::{extends, polynomial_value, Valuation};
use crate::solutions::holds_under;
use crate::model::{Identifier, PolynomialModel};
use crate::composite::Composite;
use crate::polynomial::{constant_value, polynomial_is_constant, Polynomial};
use crate::reduction::{reduce, reduce_polynomial};
use crate::roots::{integer_root, nth_root};

verus! {

/// Why a deduction failed.
#[derive(Debug, PartialEq, Eq)]
pub enum DeductionError {
    /// An equation without variables does not hold: the polynomial, as it
    /// was given, should take the value `target` but was deduced to `value`.
    Contradiction { polynomial: Polynomial, target: i64, value: i64 },
    /// The equation `coefficient * identifier^power + constant = target` has
    /// no integer solution within the machine's range.
    NoIntegerSolution {
        identifier: Identifier,
        coefficient: i64,
        power: u8,
        constant: i64,
        target: i64,
    },
    /// Some equations remained that determine no variable by themselves.
    Undetermined,
    /// Substituting a deduced value into the equations failed.
    Arithmetic(EvalError),
}

/// The model of a failed deduction.
pub enum DeductionFailure {
    Contradiction { polynomial: PolynomialModel, target: int, value: int },
    NoIntegerSolution { identifier: Identifier, coefficient: int, power: nat, constant: int, target: int },
    Undetermined,
    Arithmetic(EvalError),
}

impl View for DeductionError {
    type V = DeductionFailure;

    open spec fn view(&self) -> DeductionFailure {
        match self {
            DeductionError::Contradiction { polynomial, target, value } => {
                DeductionFailure::Contradiction {
                    polynomial: polynomial@,
                    target: *target as int,
                    value: *value as int,
                }
            },
            DeductionError::NoIntegerSolution {
                identifier,
                coefficient,
                power,
                constant,
                target,
            } => DeductionFailure::NoIntegerSolution {
                identifier: *identifier,
                coefficient: *coefficient as int,
                power: *power as nat,
                constant: *constant as int,
                target: *target as int,
            },
            DeductionError::Undetermined => DeductionFailure::Undetermined,
            DeductionError::Arithmetic(e) => DeductionFailure::Arithmetic(*e),
        }
    }
}

/// A system of equations: each polynomial with the value it takes.
pub type Equations = Seq<(PolynomialModel, int)>;

/// The model of a list of equations.
pub open spec fn equations_model(v: Seq<(Polynomial, i64)>) -> Equations {
    Seq::new(v.len(), |k: int| (v[k].0@, v[k].1 as int))
}

/// Whether a polynomial has the form `a * x^n` or `a * x^n + b` for a
/// variable `x`.
pub open spec fn solvable_form(p: PolynomialModel) -> bool {
    &&& p.monomials.len() == 1 || (p.monomials.len() == 2 && p.monomials[1].powers.len() == 0)
    &&& p.monomials[0].powers.len() == 1
    &&& p.monomials[0].powers[0].0 is Variable
}

/// The variable of a polynomial in solvable form.
pub open spec fn unknown_of(p: PolynomialModel) -> Identifier
    recommends
        solvable_form(p),
{
    p.monomials[0].powers[0].0->Variable_0
}

/// The constant term of a polynomial in solvable form.
pub open spec fn constant_of(p: PolynomialModel) -> int
    recommends
        solvable_form(p),
{
    if p.monomials.len() == 2 {
        p.monomials[1].coefficient
    } else {
        0
    }
}

/// The solution of `a * x^n + b = target` for a polynomial in solvable
/// form: `target - b` divides evenly by `a`, and the quotient has an exact
/// integer root of order `n`. `None` where there is none within the
/// machine's range.
pub open spec fn solve(p: PolynomialModel, target: int) -> Option<i64>
    recommends
        solvable_form(p),
{
    if !fits_i64(target - constant_of(p)) {
        None
    } else {
        match exact_quotient(target - constant_of(p), p.monomials[0].coefficient) {
            None => None,
            Some(q) => match integer_root(q as int, p.monomials[0].powers[0].1) {
                None => None,
                Some(r) => Some(r as i64),
            },
        }
    }
}

/// What an equation says by itself.
pub enum Finding {
    /// It has no variables and does not hold: its polynomial is this value.
    Contradiction(int),
    /// It has no variables and holds.
    Agreement,
    /// It determines this variable to have this value.
    Solution(Identifier, i64),
    /// It has solvable form and no solution.
    NoSolution,
    /// It determines nothing by itself.
    Unknown,
}

/// What the equation `p = target` says by itself.
pub open spec fn examine(p: PolynomialModel, target: int) -> Finding {
    if polynomial_is_constant(p) {
        if constant_value(p) == target {
            Finding::Agreement
        } else {
            Finding::Contradiction(constant_value(p))
        }
    } else if solvable_form(p) {
        match solve(p, target) {
            Some(x) => Finding::Solution(unknown_of(p), x),
            None => Finding::NoSolution,
        }
    } else {
        Finding::Unknown
    }
}

/// The equations with the polynomials of those among the first `n` that
/// are not verified reduced under an assignment, or the first failure of a
/// reduction.
pub open spec fn substitute_upto(
    eqs: Equations,
    verified: Seq<bool>,
    values: Assignment,
    n: int,
) -> Result<Equations, EvalError>
    decreases n,
{
    if n <= 0 || n > eqs.len() || n > verified.len() {
        Ok(eqs)
    } else {
        match substitute_upto(eqs, verified, values, n - 1) {
            Err(e) => Err(e),
            Ok(s) => if verified[n - 1] {
                Ok(s)
            } else {
                match reduce_polynomial(eqs[n - 1].0, values) {
                    Err(e) => Err(e),
                    Ok(p) => Ok(s.update(n - 1, (p, eqs[n - 1].1))),
                }
            },
        }
    }
}

/// The equations with the polynomial of every equation that is not
/// verified reduced under an assignment.
pub open spec fn substitute(eqs: Equations, verified: Seq<bool>, values: Assignment) -> Result<
    Equations,
    EvalError,
> {
    substitute_upto(eqs, verified, values, eqs.len() as int)
}

/// The number of equations from position `k` on that are not verified.
pub open spec fn pending_from(verified: Seq<bool>, k: int) -> nat
    decreases verified.len() - k,
{
    if k < 0 || k >= verified.len() {
        0
    } else if verified[k] {
        pending_from(verified, k + 1)
    } else {
        1 + pending_from(verified, k + 1)
    }
}

/// Verifying an equation leaves one equation less pending.
pub proof fn lemma_pending_after_verifying(verified: Seq<bool>, i: int, k: int)
    requires
        0 <= k <= i < verified.len(),
        !verified[i],
    ensures
        pending_from(verified.update(i, true), k) + 1 == pending_from(verified, k),
    decreases i - k,
{
    let after = verified.update(i, true);
    if k < i {
        lemma_pending_after_verifying(verified, i, k + 1);
    } else {
        lemma_pending_unchanged(verified, after, i + 1);
    }
}

/// Two lists that agree from a position on have the same number pending
/// from there on.
pub proof fn lemma_pending_unchanged(a: Seq<bool>, b: Seq<bool>, k: int)
    requires
        a.len() == b.len(),
        0 <= k,
        forall|x: int| k <= x < a.len() ==> a[x] == b[x],
    ensures
        pending_from(a, k) == pending_from(b, k),
    decreases a.len() - k,
{
    if k < a.len() {
        lemma_pending_unchanged(a, b, k + 1);
    }
}

/// The deduction from position `i` on. A verified equation is passed over.
/// An equation without variables must hold, and is then verified. An
/// equation in solvable form must have a solution, which extends the
/// assignment; the equation is verified, every other equation that is
/// not verified is reduced under the new assignment, and the scan starts
/// again. Any other equation is passed over. At the end all equations must
/// be verified.
pub open spec fn deduce_from(
    given: Equations,
    eqs: Equations,
    verified: Seq<bool>,
    values: Assignment,
    i: int,
) -> Result<Assignment, DeductionFailure>
    decreases pending_from(verified, 0), eqs.len() - i,
{
    if i < 0 || i >= eqs.len() || verified.len() != eqs.len() || given.len() != eqs.len() {
        if pending_from(verified, 0) == 0 {
            Ok(values)
        } else {
            Err(DeductionFailure::Undetermined)
        }
    } else if verified[i] {
        deduce_from(given, eqs, verified, values, i + 1)
    } else {
        proof {
            lemma_pending_after_verifying(verified, i, 0);
        }
        match examine(eqs[i].0, eqs[i].1) {
            Finding::Contradiction(v) => Err(
                DeductionFailure::Contradiction {
                    polynomial: given[i].0,
                    target: eqs[i].1,
                    value: v,
                },
            ),
            Finding::Agreement => deduce_from(
                given,
                eqs,
                verified.update(i, true),
                values,
                i + 1,
            ),
            Finding::Solution(id, x) => match substitute(
                eqs,
                verified.update(i, true),
                values.insert(id, x),
            ) {
                Err(e) => Err(DeductionFailure::Arithmetic(e)),
                Ok(reduced) => deduce_from(
                    given,
                    reduced,
                    verified.update(i, true),
                    values.insert(id, x),
                    0,
                ),
            },
            Finding::NoSolution => Err(
                DeductionFailure::NoIntegerSolution {
                    identifier: unknown_of(eqs[i].0),
                    coefficient: eqs[i].0.monomials[0].coefficient,
                    power: eqs[i].0.monomials[0].powers[0].1,
                    constant: constant_of(eqs[i].0),
                    target: eqs[i].1,
                },
            ),
            Finding::Unknown => deduce_from(given, eqs, verified, values, i + 1),
        }
    }
}

/// The values of the variables that a system of equations determines, one
/// equation at a time, or why the deduction fails.
pub open spec fn deduce(eqs: Equations) -> Result<Assignment, DeductionFailure> {
    deduce_from(eqs, eqs, Seq::new(eqs.len(), |k: int| false), Map::empty(), 0)
}

/// What a deduction returns, as it is stated of the models.
pub open spec fn deduction_result(r: Result<HashMap<Identifier, i64>, DeductionError>) -> Result<
    Assignment,
    DeductionFailure,
> {
    match r {
        Ok(values) => Ok(values@),
        Err(e) => Err(e@),
    }
}

/// What an equation says by itself, as the deduction finds it.
enum Found {
    Contradiction(i64),
    Agreement,
    Solution(Identifier, i64),
    NoSolution { identifier: Identifier, coefficient: i64, power: u8, constant: i64 },
    Unknown,
}

/// Whether what was found is what the equation says.
spec fn found_is(f: Found, p: PolynomialModel, target: int) -> bool {
    match f {
        Found::Contradiction(v) => examine(p, target) == Finding::Contradiction(v as int),
        Found::Agreement => examine(p, target) == Finding::Agreement,
        Found::Solution(id, x) => examine(p, target) == Finding::Solution(id, x),
        Found::NoSolution { identifier, coefficient, power, constant } => {
            &&& examine(p, target) == Finding::NoSolution
            &&& identifier == unknown_of(p)
            &&& coefficient == p.monomials[0].coefficient
            &&& power == p.monomials[0].powers[0].1
            &&& constant == constant_of(p)
        },
        Found::Unknown => examine(p, target) == Finding::Unknown,
    }
}

/// Examines the equation `p = target` by itself.
fn examine_equation(p: &Polynomial, target: i64) -> (f: Found)
    ensures
        found_is(f, p@, target as int),
{
    if p.is_constant() {
        let value = p.constant_value();
        if value == target {
            return Found::Agreement;
        } else {
            return Found::Contradiction(value);
        }
    }
    let n = p.monomials.len();
    assert(n >= 1);
    assert(p@.monomials[0] == p.monomials@[0]@);
    if n > 2 || p.monomials[0].powers.len() != 1 {
        return Found::Unknown;
    }
    if n == 2 {
        assert(p@.monomials[1] == p.monomials@[1]@);
        if !p.monomials[1].is_constant() {
            return Found::Unknown;
        }
    }
    assert(p@.monomials[0].powers[0] == (
        p.monomials@[0].powers@[0].0@,
        p.monomials@[0].powers@[0].1 as nat,
    ));
    let identifier = match &p.monomials[0].powers[0].0 {
        Composite::Variable(id) => *id,
        _ => {
            return Found::Unknown;
        },
    };
    let coefficient = p.monomials[0].coefficient;
    let power = p.monomials[0].powers[0].1;
    let constant = if n == 2 {
        p.monomials[1].coefficient
    } else {
        0
    };
    let none = Found::NoSolution { identifier, coefficient, power, constant };
    let difference = match target.checked_sub(constant) {
        Some(d) => d,
        None => {
            return none;
        },
    };
    let quotient = match checked_exact_div(difference, coefficient) {
        Some(q) => q,
        None => {
            return none;
        },
    };
    match nth_root(quotient, power) {
        Some(x) => Found::Solution(identifier, x),
        None => none,
    }
}

/// Reduces the polynomial of every equation that is not verified under an
/// assignment.
fn substitute_values(
    equations: &mut Vec<(Polynomial, i64)>,
    verified: &Vec<bool>,
    values: &HashMap<Identifier, i64>,
) -> (r: Result<(), EvalError>)
    requires
        verified.len() == old(equations).len(),
    ensures
        match r {
            Ok(()) => substitute(equations_model(old(equations)@), verified@, values@) == Ok::<
                Equations,
                EvalError,
            >(equations_model(final(equations)@)),
            Err(e) => substitute(equations_model(old(equations)@), verified@, values@) == Err::<
                Equations,
                EvalError,
            >(e),
        },
        final(equations).len() == old(equations).len(),
{
    let ghost eqs = equations_model(equations@);
    let ghost n = eqs.len() as int;
    let mut k: usize = 0;
    while k < equations.len()
        invariant
            k <= equations.len(),
            equations.len() == n,
            eqs.len() == n,
            eqs == equations_model(old(equations)@),
            old(equations).len() == n,
            verified.len() == n,
            substitute_upto(eqs, verified@, values@, k as int) == Ok::<Equations, EvalError>(
                equations_model(equations@),
            ),
            forall|x: int| k <= x < n ==> equations_model(equations@)[x] == eqs[x],
        decreases equations.len() - k,
    {
        let ghost before = equations_model(equations@);
        assert(before[k as int] == eqs[k as int]);
        if verified[k] {
            k += 1;
            continue;
        }
        let target = equations[k].1;
        let reduced = match reduce(&equations[k].0, values) {
            Ok(p) => p,
            Err(e) => {
                proof {
                    lemma_substitute_failure(eqs, verified@, values@, k + 1, n);
                }
                return Err(e);
            },
        };
        let ghost model = reduced@;
        equations.set(k, (reduced, target));
        assert(equations_model(equations@) =~= before.update(k as int, (model, target as int)));
        k += 1;
    }
    Ok(())
}

/// A failure among the first `k` equations is the failure of the whole.
proof fn lemma_substitute_failure(
    eqs: Equations,
    verified: Seq<bool>,
    values: Assignment,
    k: int,
    n: int,
)
    requires
        0 <= k <= n <= eqs.len(),
        n <= verified.len(),
        substitute_upto(eqs, verified, values, k).is_err(),
    ensures
        substitute_upto(eqs, verified, values, n) == substitute_upto(eqs, verified, values, k),
    decreases n - k,
{
    if k < n {
        lemma_substitute_failure(eqs, verified, values, k, n - 1);
    }
}

/// A copy of a list of equations.
fn clone_equations(v: &[(Polynomial, i64)]) -> (r: Vec<(Polynomial, i64)>)
    ensures
        equations_model(r@) == equations_model(v@),
{
    let mut out: Vec<(Polynomial, i64)> = Vec::new();
    let mut k: usize = 0;
    while k < v.len()
        invariant
            k <= v.len(),
            out@.len() == k,
            forall|x: int| 0 <= x < k ==> (#[trigger] out@[x]).0@ == v@[x].0@ && out@[x].1 == v@[x].1,
        decreases v.len() - k,
    {
        out.push((v[k].0.clone(), v[k].1));
        k += 1;
    }
    assert(equations_model(out@) =~= equations_model(v@));
    out
}

/// Whether every equation is verified.
fn all_verified(verified: &Vec<bool>) -> (r: bool)
    ensures
        r == (pending_from(verified@, 0) == 0),
{
    let mut k: usize = verified.len();
    while k > 0
        invariant
            k <= verified.len(),
            pending_from(verified@, k as int) == 0,
        decreases k,
    {
        k -= 1;
        if !verified[k] {
            proof {
                lemma_pending_counts(verified@, 0, k as int);
            }
            return false;
        }
    }
    true
}

/// An equation that is not verified is pending.
pub proof fn lemma_pending_counts(verified: Seq<bool>, k: int, i: int)
    requires
        0 <= k <= i < verified.len(),
        !verified[i],
    ensures
        pending_from(verified, k) > 0,
    decreases i - k,
{
    if k < i {
        lemma_pending_counts(verified, k + 1, i);
    }
}

/// Deduces the values of the variables from a system of equations, each a
/// polynomial and the value it takes. The equations are scanned from the
/// first one on. An equation without variables must hold. An equation of
/// the form `a * x^n + b = target` determines `x`: `target - b` must divide
/// evenly by `a` and the quotient must have an exact integer root, which
/// becomes the value of `x`; then every other equation that is not yet
/// verified is reduced under the values found so far and the scan starts
/// again. The deduction succeeds when every equation has been verified in
/// one of these ways. Under the values returned every equation holds,
/// whatever the variables without a value stand for.
pub fn deduce_values(system: &[(Polynomial, i64)]) -> (r: Result<
    HashMap<Identifier, i64>,
    DeductionError,
>)
    ensures
        deduction_result(r) == deduce(equations_model(system@)),
        match r {
            Ok(found) => forall|k: int|
                0 <= k < system@.len() ==> holds_under(
                    (#[trigger] system@[k]).0@,
                    system@[k].1 as int,
                    found@,
                ),
            Err(_) => true,
        },
{
    let r = deduce_equations(system);
    proof {
        let given = equations_model(system@);
        match &r {
            Ok(found) => {
                assert forall|k: int| 0 <= k < system@.len() implies holds_under(
                    (#[trigger] system@[k]).0@,
                    system@[k].1 as int,
                    found@,
                ) by {
                    assert forall|v: Valuation| #[trigger] extends(v, found@) implies polynomial_value(
                        system@[k].0@,
                        v,
                    ) == system@[k].1 as int by {
                        law_deduction_finds_a_solution(given, found@, v, k);
                    }
                }
            },
            Err(_) => {},
        }
    }
    r
}

/// Scans the equations until all are verified or a scan finds nothing.
fn deduce_equations(system: &[(Polynomial, i64)]) -> (r: Result<
    HashMap<Identifier, i64>,
    DeductionError,
>)
    ensures
        deduction_result(r) == deduce(equations_model(system@)),
{
    let ghost given = equations_model(system@);
    let n = system.len();
    let mut equations = clone_equations(system);
    let mut verified: Vec<bool> = Vec::new();
    let mut k: usize = 0;
    while k < n
        invariant
            k <= n,
            verified@.len() == k,
            forall|x: int| 0 <= x < k ==> !verified@[x],
        decreases n - k,
    {
        verified.push(false);
        k += 1;
    }
    assert(verified@ =~= Seq::new(given.len(), |k: int| false));
    let mut values: HashMap<Identifier, i64> = HashMap::new();
    let mut i: usize = 0;
    while i < n
        invariant
            i <= n,
            n == system.len(),
            given == equations_model(system@),
            equations.len() == n,
            verified.len() == n,
            deduce_from(given, equations_model(equations@), verified@, values@, i as int)
                == deduce(given),
        decreases pending_from(verified@, 0), n - i,
    {
        let ghost eqs = equations_model(equations@);
        assert(eqs[i as int] == (equations@[i as int].0@, equations@[i as int].1 as int));
        assert(given[i as int].0 == system@[i as int].0@);
        if verified[i] {
            i += 1;
            continue;
        }
        proof {
            lemma_pending_after_verifying(verified@, i as int, 0);
        }
        let target = equations[i].1;
        match examine_equation(&equations[i].0, target) {
            Found::Contradiction(value) => {
                return Err(
                    DeductionError::Contradiction {
                        polynomial: system[i].0.clone(),
                        target,
                        value,
                    },
                );
            },
            Found::Agreement => {
                verified.set(i, true);
                i += 1;
            },
            Found::Solution(id, x) => {
                values.insert(id, x);
                verified.set(i, true);
                match substitute_values(&mut equations, &verified, &values) {
                    Ok(()) => {},
                    Err(e) => {
                        return Err(DeductionError::Arithmetic(e));
                    },
                }
                i = 0;
            },
            Found::NoSolution { identifier, coefficient, power, constant } => {
                return Err(
                    DeductionError::NoIntegerSolution {
                        identifier,
                        coefficient,
                        power,
                        constant,
                        target,
                    },
                );
            },
            Found::Unknown => {
                i += 1;
            },
        }
    }
    if all_verified(&verified) {
        Ok(values)
    } else {
        Err(DeductionError::Undetermined)
    }
}

} // verus!
