//! A small dynamically typed scripting language: lexer, parser, scopes and
//! a tree-walking evaluator, each stated over a mathematical model.

pub mod ast;
pub mod error;
pub mod grammar;
pub mod host;
pub mod laws;
pub mod lexer;
pub mod parser;
pub mod parser_calls;
pub mod parser_defs;
pub mod scope;
pub mod semantics;
pub mod spans;
pub mod stdfunc;
pub mod text;
pub mod token;
pub mod tree;
pub mod values;
pub mod visitor;
