//! Semantic front end of a compiler for a PLC-style structured-text language:
//! a recursive-descent parser with diagnostics, the catalog of scalar types
//! with its promotion rules, and the evaluator of compile-time constants.

pub mod ast;
pub mod typesystem;
pub mod token;
pub mod diagnostic;
pub mod index;
pub mod resolver;
pub mod parser;
