//! A parser for the STIX patterning language.
//!
//! A pattern is recognized against the grammar, which gives a concrete tree,
//! and the concrete tree is then built into a typed abstract syntax tree.

pub mod ast;
pub mod conformance;
pub mod depth;
pub mod error;
pub mod frame;
pub mod grammar;
pub mod laws;
pub mod literal;
pub mod meaning;
pub mod parser;
pub mod recognizer;
pub mod scan;
pub mod shape;
pub mod text;
pub mod tree;
pub mod written;
