//! The front end of a small imperative language: a tokenizer that turns
//! source text into tokens, and a parser that turns tokens into a syntax tree.

pub mod ast;
pub mod decimal;
pub mod errors;
pub mod file_searcher;
pub mod grammar;
pub mod grammar_laws;
pub mod lexer;
pub mod lexical;
pub mod lexical_laws;
pub mod scanner;
pub mod syntax_tree;
pub mod text;
