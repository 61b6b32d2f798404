//! A tree-walking interpreter for a small parenthesised expression language:
//! a lexer that produces tokens with spans, a recursive-descent parser that
//! builds an expression tree, and an evaluator that walks it against a single
//! mutable environment.
use vstd::prelude::*;

pub mod text;
pub mod lexer;
pub mod parser;
pub mod interpreter;
pub mod laws;

verus! {

} // verus!
