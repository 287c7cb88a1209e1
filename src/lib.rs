//! A small Lisp evaluator: tokenizer, parser, lexical environments and a
//! tree-walking evaluator with closures.
//!
//! `semantics` states what evaluating an expression means; `eval` computes it
//! and is proved to agree; `laws` proves properties of that meaning.

pub mod atom;
pub mod error;
pub mod eval;
pub mod laws;
pub mod parser;
pub mod scope;
pub mod semantics;
pub mod tokenizer;
pub mod util;
