//! The execution core of a small dynamically typed scripting language:
//! a lexer from source text to tokens, a recursive-descent parser from
//! tokens to an expression tree, and a tree-walking evaluator that runs
//! the tree against a persistent variable environment.  Numbers are IEEE
//! 754 doubles, carried through the core as their bit patterns; `num`
//! holds the trusted boundary that computes with them.  Each stage is
//! specified by a total function of its input (`spec_lex`, `sp_parse`,
//! `spec_eval`) and proved to follow it; `laws` states the headline
//! guarantees once and for all.

pub mod ast;
pub mod eval;
pub mod laws;
pub mod lexer;
pub mod num;
pub mod parser;
pub mod text;
pub mod token;
