//! Reads a line-oriented filter configuration: a byte-level tokenizer and a
//! line-grammar parser that turn a buffer into typed rule records, with
//! helpers for reporting on the parsed rules.
pub mod domain;
pub mod lexer;
pub mod parser;
pub mod report;
