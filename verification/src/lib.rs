//! Front end for a small expression language: a lexical scanner that turns
//! source text into a token sequence terminated by an end-of-input marker,
//! and a recursive-descent parser that turns the token sequence into an
//! expression tree, with located error messages for both stages.

pub mod ast;
pub mod lexer;
pub mod parser;
pub mod text;
pub mod token;
