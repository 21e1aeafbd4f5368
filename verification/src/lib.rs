//! Symbolic integer polynomials over named variables.
//!
//! A [`Polynomial`] is a canonical sum of [`Monomial`]s; a monomial is a
//! coefficient times a product of [`Composite`]s raised to positive powers; a
//! composite is either a variable or an irreducible `floor`, `ceil`, `min` or
//! `max` of two polynomials. Every value has a mathematical model (its view),
//! and every operation is specified over those models.
//!
//! The modules `model`, `shape`, `algebra`, `division`, `evaluation`,
//! `reduction` and `deduction` hold the models and say what the operations
//! compute; `meaning` says what an expression stands for; `canonical`
//! tests whether a value built by hand is in canonical form; `order`,
//! `factors`, `ranks`, `coefficients`, `solutions` and `laws` hold what is
//! proved of them.
pub mod algebra;
pub mod canonical;
pub mod coefficients;
pub mod comparisons;
pub mod composite;
pub mod conversions;
pub mod deduction;
pub mod division;
pub mod evaluation;
pub mod factors;
pub mod functions;
pub mod identifiers;
pub mod integer;
pub mod laws;
pub mod meaning;
pub mod messages;
pub mod model;
pub mod monomial;
pub mod operators;
pub mod order;
pub mod orderings;
pub mod polynomial;
pub mod ranks;
pub mod reduction;
pub mod registry;
pub mod rendering;
pub mod roots;
pub mod shape;
pub mod solutions;
pub mod traits;

pub use composite::Composite;
pub use deduction::{deduce_values, DeductionError};
pub use evaluation::EvalError;
pub use functions::{
    can_round_quotient, ceil, constants_have_quotient, floor, max, min, primitive, variable,
};
pub use model::{Comparison, Identifier};
pub use monomial::Monomial;
pub use polynomial::Polynomial;
pub use reduction::{reduce, reduce_monomial};
pub use registry::Registry;
pub use traits::{Evaluable, IsConstant};
