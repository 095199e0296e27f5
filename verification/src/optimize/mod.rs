//! The passes that rewrite a grammar before it is emitted.

pub mod analysis;
pub mod closure;
pub mod dead_code;
pub mod diagnostic;
pub mod fields;
pub mod inlining;
pub mod left_recursion;
pub mod pass;
pub mod pipeline;
pub mod refine;
pub mod settled;
pub mod stable;
pub mod stage;
