//! Building a grammar from the parse tree of a grammar text.

pub mod expression;
pub mod fault;
pub mod grammar;
pub mod rule;
