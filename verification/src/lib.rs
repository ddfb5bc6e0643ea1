//! Dice expressions: integer constants, dice terms such as `2d6`, and the
//! operators `+`, `-` and `*`, parsed into a stack program and evaluated
//! with saturating 64-bit arithmetic.
//!
//! The first `*` of an expression splits it into two factors; an
//! expression without `*` is split into two terms by its first `+` or `-`.
//! So `2+3*4` is `(2+3)*4`, and `5-2-1` is `5-(2-1)`.

pub mod arith;
pub mod error;
pub mod expression;
pub mod laws;
pub mod number;
pub mod operation;
pub mod random;
pub mod text;
pub mod value;

pub use error::{EvalError, ParseError};
pub use expression::Expression;
pub use operation::Operation;
pub use value::Value;
