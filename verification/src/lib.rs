//! Translation of a pattern-matching predicate over one algebraic data type
//! into a disjunctive constraint specification for an external solver.
//!
//! The pipeline: a concrete syntax tree (obtained from a grammar library and
//! flattened to a pre-order list) is walked by a frontend adapter, which
//! produces a normalized `Adt` declaration and one predicate clause per
//! constructor pattern; the encoder then compiles those clauses into a
//! textual constraint specification using a tag-and-zero encoding.

pub mod adt;
pub mod codegen;
pub mod cst;
pub mod error;
pub mod essence;
pub mod haskell;
pub mod parser;
pub mod precedence;
pub mod rust_parser;
pub mod solution;
pub mod strings;
pub mod subst;

pub use error::TransError;
