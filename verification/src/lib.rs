//! The front end of a compiler for a small imperative subset of C:
//! a lexer, a recursive-descent parser and two semantic-analyser
//! variants, each verified against a functional model. The x86-64
//! code generator of the full pipeline is not part of this crate.

pub mod text;
pub mod token;
pub mod lexer;
pub mod ast;
pub mod parser;
pub mod analyser;
pub mod analyzer;
