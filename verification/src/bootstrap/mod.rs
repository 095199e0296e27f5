//! Reading the text of a grammar before it becomes a grammar.

pub mod declaration;
pub mod errors;
pub mod marker;
pub mod parse;
pub mod syntax_kind;
pub mod tree;
