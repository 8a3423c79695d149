//! A lexical scanner for a small expression and statement language.
//!
//! `lexer::Lexer` turns source text into classified tokens, each tagged with
//! the line and column where it starts. The lexical grammar is stated as
//! spec functions in `grammar`, and `lemmas` proves what holds of it.
pub mod ast;
pub mod grammar;
pub mod lemmas;
pub mod lexer;
mod text;
pub mod tokens;
