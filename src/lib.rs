//! Front end of a small statically typed imperative language: a lexer, a
//! recursive-descent parser, a type-filling pass and a lowering pass that
//! turns the typed tree into a sequence of requests for a native backend.

pub mod types;
pub mod token;
pub mod lexer;
pub mod parser;
pub mod nodes;
pub mod typefiller;
pub mod codegen;
pub mod semantic;
