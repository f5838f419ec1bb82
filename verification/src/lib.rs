//! Compiler front-end for a small content-definition language: lexing,
//! parsing of component declarations into typed records, and merging of
//! per-file syntax trees into one corpus.

pub mod lantern;
pub mod errors;
pub mod literal;
pub mod merge;
pub mod parser;
