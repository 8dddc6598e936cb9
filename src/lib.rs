//! A scanner for a BigQuery-style SQL dialect: it turns source text into a
//! flat sequence of positioned tokens.

pub mod grammar;
pub mod laws;
pub mod lexer;
pub mod text;
pub mod token;
