//! A lexical scanner for a small C-like scripting language.
pub mod grammar;
pub mod laws;
pub mod lexer;
pub mod token;
