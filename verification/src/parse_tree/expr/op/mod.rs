//! Operators.

pub mod binary;
pub mod unary;
