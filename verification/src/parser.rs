//! The 16-bit code-unit front end: tokenizer and declaration parser.

pub mod parse_inline_style;
pub mod tokenize;
pub mod types;
pub mod utils;
