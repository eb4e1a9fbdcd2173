//! A small S-expression language: tokenizer, recursive-descent parser,
//! lexically scoped environments, and a tree-walking evaluator with the
//! built-in procedures `+`, `-` and `lambda`.

pub mod token;
pub mod expr;
pub mod render;
pub mod error;
pub mod env;
pub mod lexer;
pub mod parser;
pub mod eval;
pub mod laws;

use vstd::prelude::*;

verus! {

/// The greatest number of nested procedure invocations the evaluator
/// performs before it reports a depth error instead of recursing further.
pub const MAX_CALL_DEPTH: u64 = 64;

} // verus!
