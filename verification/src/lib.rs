//! A small Lisp: expressions are literals, symbols and lists whose first item
//! names an operation. The crate holds the expression tree, the run-time
//! values, the chain of environments and the evaluator that turns an
//! expression into a value or a typed failure.
//!
//! Every function comes with a contract over a mathematical model of the data
//! it works on: each data type has a view, and evaluation is specified by
//! [`eval::eval_spec`], a recursive function on those views.
//!
//! - [`ast`], [`value`], [`error`]: the data.
//! - [`env`]: frames of bindings and their chain.
//! - [`number`]: arithmetic and order on integers and floats.
//! - [`eval`]: the evaluator and its specification.
//! - [`laws`], [`footprint`], [`soundness`], [`depth`]: what is proved of
//!   evaluation.
//! - [`render`]: text for expressions, values and failures.
//! - [`reader`]: from text to expressions.
//! - [`readback`]: what is proved of the reader.
//!
//! Floats are held as the bits of IEEE-754 binary64 numbers throughout.

pub mod ast;
pub mod value;
pub mod error;
pub mod env;
pub mod number;
pub mod eval;
pub mod footprint;
pub mod laws;
pub mod soundness;
pub mod depth;
pub mod render;
pub mod reader;
pub mod readback;
