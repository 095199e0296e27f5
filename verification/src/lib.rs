//! Parser-generator toolchain for a PEG-flavoured grammar language: the
//! parser runtime, the grammar representation and its optimiser.

pub mod bootstrap;
pub mod builder;
pub mod codegen;
pub mod completion;
pub mod config;
pub mod cst;
pub mod driver;
pub mod errors;
pub mod ir;
pub mod optimize;
pub mod pair;
pub mod position;
pub mod results;
pub mod span;
pub mod state;
pub mod str2ast;
pub mod strings;
pub mod text;
pub mod token;
