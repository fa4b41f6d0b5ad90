//! A small compiler for integer arithmetic and comparison expressions.
//!
//! The pipeline has two verified stages: a recursive-descent parser that
//! turns a token sequence into an expression tree ([`parser::parse`]), and
//! a code generator that flattens the tree into stack-machine instructions
//! and renders them as assembly text ([`codegen::codegen`]).  A small
//! verified interpreter for the stack machine ([`machine::execute`]) states
//! what the emitted programs compute.

pub mod codegen;
pub mod machine;
pub mod parser;
pub mod token;
