//! Lexical analysis for a small scripting language: turns source bytes into
//! located tokens, or reports the first located error.
pub mod error;
pub mod literal;
pub mod token_type;
mod text;
pub mod token;
pub mod grammar;
pub mod scanner;
pub mod laws;
