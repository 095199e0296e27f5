//! The grammar as data: expressions, rules and the grammar that owns them.

pub mod expression;
pub mod grammar;
pub mod regex;
pub mod rule;
