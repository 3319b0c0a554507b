//! The Monkey programming language: a lexer, a Pratt parser, a tree-walking
//! evaluator, and a bytecode compiler with its stack-based virtual machine.

pub mod text;
pub mod token;

pub mod lexer;
pub mod ast;
pub mod parse;
pub mod object;
pub mod code;
pub mod environment;
pub mod compile;
pub mod vm;
pub mod evaluate;
