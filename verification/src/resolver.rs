//! What is resolved after parsing: the values of compile-time constants.

pub mod number;
pub mod const_evaluator;
pub mod resolution;
