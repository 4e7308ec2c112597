//! A small imperative language: a lexer, a parser, a bytecode compiler and a
//! stack-based virtual machine with call frames.

pub mod arith;
pub mod eval;
pub mod frames;
pub mod lex;
pub mod malformed;
pub mod parse;
pub mod text;
