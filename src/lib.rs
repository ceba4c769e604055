//! The front end of a small scripting language: a lexer that turns source
//! text into tokens, and a recursive-descent parser that turns tokens into an
//! expression tree, each proved against a specification of what it computes.
pub mod expression;
pub mod lexer;
pub mod lexer_proofs;
pub mod parser;
pub mod parser_proofs;
pub mod text;
pub mod token;
