//! A small interpreted scripting language: a tokenizer turns source text into
//! tokens, a recursive-descent parser turns tokens into an expression tree, and
//! a tree-walking evaluator reduces that tree to a value.
pub mod number;
pub mod text;
pub mod expression;
pub mod token;
pub mod grammar;
pub mod parser;
pub mod lexing;
pub mod lexer;
pub mod value;
pub mod scope;
pub mod semantics;
pub mod operations;
pub mod runtime;
