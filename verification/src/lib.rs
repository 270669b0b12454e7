//! An exact-arithmetic symbolic calculator.
//!
//! Expression trees over rational constants, a simplifying evaluator, a
//! structural differentiator, and Newton-based solvers for one equation or a
//! system of two, together with a tokenizer and a recursive-descent parser
//! for the surface syntax.

pub mod interpreter;
pub mod laws;
pub mod node;
pub mod parser;
pub mod rational;
pub mod render;
pub mod semantics;
pub mod token;
pub mod tokenizer;
