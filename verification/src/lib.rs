//! Front end of a small programming language: a lexer that turns source text
//! into tokens, and a Pratt-style parser that turns tokens into an abstract
//! syntax tree, both specified and verified down to the token stream.

pub mod ast;
pub mod lexer;
pub mod parser;
pub mod token;
