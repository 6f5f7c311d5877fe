//! Expressions that denote a value directly.

pub mod array;
pub mod literal;
pub mod object;
