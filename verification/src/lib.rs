//! An algebraic modeling layer for linear and mixed-integer optimization
//! problems: declare decision variables, combine them into sparse linear
//! expressions over an exact rational coefficient type, assemble constraints
//! and an objective, serialize the model to the plain-text problem format a
//! solver consumes, and parse the solver's result text back into typed
//! variable values.

mod constraint;
mod expression;
mod float_text;
mod model;
mod num_text;
mod rat;
mod solution;
mod variable;

pub use constraint::{Constraint, Relation};
pub use expression::{c, Constant, Expression, Term};
pub use float_text::{parse_float_line, parse_float_solution, FloatBinding};
pub use model::{Model, OptimizationDirection, VarKind, VariableBuilder};
pub use num_text::u128_to_string;
pub use rat::Rat;
pub use solution::{Binding, Solution};
pub use variable::Variable;
