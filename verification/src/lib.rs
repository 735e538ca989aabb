//! A small indentation-based language front end: tokenizer, parser,
//! name resolution and type synthesis, with their contracts.

pub mod operators;
pub mod types;
pub mod source;
pub mod text;
pub mod compiler_context;
pub mod lexer;
pub mod error;
pub mod ast;
pub mod syntax;
pub mod semantic;
pub mod compiler;
