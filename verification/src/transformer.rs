//! The rewrite layer: rule tables and the inline-style rewrite driver.

pub mod rules;
pub mod transform;
