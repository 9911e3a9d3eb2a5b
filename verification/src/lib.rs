//! A verified rewriter for inline CSS declaration strings written in a
//! mobile-UI CSS dialect.
//!
//! The pipeline is a single pass over one immutable buffer of code units:
//! a tokenizer for a flat subset of the CSS syntax grammar, a declaration
//! parser built on it, and a rule-driven rewrite layer that renames or
//! expands dialect-specific properties while passing everything else
//! through byte for byte.

pub mod char_code_definitions;

pub mod parser;
pub mod transformer;
