//! A small tokenizer: it scans a text buffer into integers, names and
//! single-character literals, skipping whitespace.

pub mod chars;
pub mod laws;
pub mod lexer;
pub mod scan;
