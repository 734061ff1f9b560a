//! A JavaScript front end: lexing and parsing of source text into an
//! abstract syntax tree, with the small text utilities the interpreter uses.
pub mod ast;
pub mod ast_copy;
pub mod ast_node;
pub mod ast_token;
pub mod ast_utils;
pub mod builtins;
pub mod bytecode;
pub mod error;
pub mod value;
