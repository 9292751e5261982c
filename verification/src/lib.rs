//! Evaluation of arithmetic expressions over integers, reals and text.
//!
//! An expression is a text such as `2 * (x + 1.5)`: literals and names of variables,
//! the operators `+ - * / %`, parentheses and spaces. [`eval`] reads it in one pass and
//! gives its value, a [`type_enum::Type`].
//!
//! Arithmetic on reals is not done by this crate. [`eval`] looks up what it needs to
//! know about reals in a [`reals::RealTable`]; where the table has no answer, it stops
//! and hands back the question. The caller answers it, records the answer and calls
//! again:
//!
//! ```text
//! let mut table = RealTable::new();
//! let result = loop {
//!     match eval("2 * (x + 1.5)", Some(&vars), &table) {
//!         Err(Halt::Pending(query)) => table.record(answer(&query)),
//!         Ok(value) => break Ok(value),
//!         Err(Halt::Failed(error)) => break Err(error),
//!     }
//! };
//! ```
//!
//! What [`eval`] computes is stated by [`evaluator::evaluate`], for every text. What
//! that is for a well-formed expression, [`grammar`] says; [`laws`] holds what
//! follows for expressions of particular shapes, and [`settled`] for tables that
//! grow.

pub mod error;
pub mod evaluator;
pub mod grammar;
pub mod laws;
pub mod operator;
pub mod passes;
pub mod reals;
pub mod session;
pub mod settled;
pub mod text;
pub mod type_enum;

pub use evaluator::{eval, vars_init};
