//! Verified core of a class-diagram-to-source-code generator.
//!
//! A restricted, line-oriented class-diagram notation is scanned into a
//! class model (class names, parent and interface links, fields, methods),
//! and the model is rendered into per-class skeleton source text through a
//! pluggable rendering strategy.

pub mod class;
pub mod code_generator;
pub mod grammar;
pub mod java;
pub mod laws;
pub mod model;
pub mod parser;
pub mod patterns;
pub mod text;
