//! A tokenizer, expression parser, syntax-tree printer and variable scopes
//! for a small Lox-like scripting language.

pub mod text;
pub mod tokens;
pub mod tokenizer;
pub mod syntax;
pub mod parser;
pub mod context;
