//! A parser for a small scripting language: imports, function declarations,
//! and calls of dotted names with string-literal arguments.
//!
//! `grammar` states the language as spec functions over the input's characters,
//! `ast` holds the syntax tree and its model, `parse` is the executable parser
//! proved equal to the grammar, and `laws` proves properties of the grammar.
pub mod ast;
pub mod grammar;
pub mod laws;
pub mod parse;

pub use grammar::Token;
pub use parse::{parser, ParseError};

pub use ast::Expression;

