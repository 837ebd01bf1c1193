//! A small SQL front end: a lexer that turns SQL text into tokens, a parser
//! for `SELECT` statements and, within it, a Pratt parser for expressions,
//! and the input history and line handling of an interactive shell.
pub mod text;
pub mod error;
pub mod token;
pub mod lexer;
pub mod ast;
pub mod operator;
pub mod parser;
pub mod history;
pub mod command;
pub mod shell;
