//! Evaluation of a small subset of LaTeX mathematics: a lexer, a
//! precedence parser, a tree builder, a function catalog, and the postfix
//! program that an expression stands for.
pub mod chars;
pub mod token;
pub mod lex;
pub mod forward;
pub mod parser;
pub mod ast;
pub mod number;
pub mod function;
pub mod config;
pub mod exec;
