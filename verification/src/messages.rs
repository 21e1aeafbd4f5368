//! What the failures say.
use vstd::prelude::*;
use vstd::string::StringExecFns;
use crate::deduction::{DeductionError, DeductionFailure};
use crate::evaluation::EvalError;
use crate::rendering::{
    append_integer, append_natural, decimal_names, integer_text, natural_text, polynomial_text,
};

verus! {

/// The message of a failed evaluation.
pub open spec fn evaluation_message(e: EvalError) -> Seq<char> {
    match e {
        EvalError::MissingVariable(id) => "Value not provided for "@ + natural_text(id as nat)
            + "."@,
        EvalError::DivisionByZero => "Attempting division by zero."@,
        EvalError::Overflow => "Arithmetic overflow."@,
    }
}

/// The message of a failed deduction.
pub open spec fn deduction_message(e: DeductionFailure) -> Seq<char> {
    match e {
        DeductionFailure::Contradiction { polynomial, target, value } => {
            "Value deduction failed for "@ + polynomial_text(polynomial, decimal_names()) + " = "@
                + integer_text(target) + ", as it was deduced to "@ + integer_text(value) + "."@
        },
        DeductionFailure::NoIntegerSolution { identifier, coefficient, power, constant, target } => {
            "Could not find integer solution to "@ + integer_text(coefficient) + " * "@
                + natural_text(identifier as nat) + "^"@ + natural_text(power) + " + "@
                + integer_text(constant) + " = "@ + integer_text(target) + "."@
        },
        DeductionFailure::Undetermined => "Could not deduce all variables."@,
        DeductionFailure::Arithmetic(e) => evaluation_message(e),
    }
}

impl EvalError {
    /// The message of the failure. A missing variable is named by the
    /// decimal text of its identifier.
    pub fn message(&self) -> (r: String)
        ensures
            r@ == evaluation_message(*self),
    {
        match self {
            EvalError::MissingVariable(id) => {
                let mut out = String::from_str("Value not provided for ");
                append_natural(&mut out, *id as u64);
                out.append(".");
                out
            },
            EvalError::DivisionByZero => String::from_str("Attempting division by zero."),
            EvalError::Overflow => String::from_str("Arithmetic overflow."),
        }
    }
}

impl DeductionError {
    /// The message of the failure, with the equation that it is about.
    pub fn message(&self) -> (r: String)
        ensures
            r@ == deduction_message(self@),
    {
        match self {
            DeductionError::Contradiction { polynomial, target, value } => {
                let mut out = String::from_str("Value deduction failed for ");
                let text = polynomial.to_string();
                out.append(text.as_str());
                out.append(" = ");
                append_integer(&mut out, *target);
                out.append(", as it was deduced to ");
                append_integer(&mut out, *value);
                out.append(".");
                out
            },
            DeductionError::NoIntegerSolution {
                identifier,
                coefficient,
                power,
                constant,
                target,
            } => {
                let mut out = String::from_str("Could not find integer solution to ");
                append_integer(&mut out, *coefficient);
                out.append(" * ");
                append_natural(&mut out, *identifier as u64);
                out.append("^");
                append_natural(&mut out, *power as u64);
                out.append(" + ");
                append_integer(&mut out, *constant);
                out.append(" = ");
                append_integer(&mut out, *target);
                out.append(".");
                out
            },
            DeductionError::Undetermined => String::from_str("Could not deduce all variables."),
            DeductionError::Arithmetic(e) => e.message(),
        }
    }
}

} // verus!
