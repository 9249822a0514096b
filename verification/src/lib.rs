//! A tokenizer and a recursive-descent parser for a small subset of C: one
//! function definition whose body is a sequence of `return` statements, each
//! returning an integer literal.
//!
//! The [`lexer`] turns source text into tokens on demand and the [`parser`]
//! assembles them into the tree defined in [`ast`]. What each of them computes
//! is stated over mathematical models in [`lexical`] and [`grammar`].

pub mod ast;
pub mod grammar;
pub mod lexer;
pub mod lexical;
pub mod parser;
pub mod text;
