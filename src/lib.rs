//! Truth tables for boolean expressions over named variables.
//!
//! The pipeline runs text -> tokens -> tree -> (variables, rows): a cursor
//! over the characters of one line, a tokenizer, a recursive-descent parser
//! without operator precedence, an evaluator that folds left to right, and an
//! enumerator of every assignment of the discovered variables.
pub mod reader;
pub mod token;
pub mod lexer;
pub mod ast;
pub mod parser;
pub mod vars;
pub mod table;
pub mod pipeline;
pub mod laws;
pub mod header;
