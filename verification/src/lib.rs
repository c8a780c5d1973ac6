//! A small library for summing whitespace-delimited numeric text.
//!
//! The library resolves a command line into an input mode, tokenizes raw
//! numeric text (stripping thousands-separator commas), and validates each
//! token against the floating-point literal grammar.  Reading input and the
//! floating-point summation itself live in the surrounding binary.

pub mod config;
pub mod error;
pub mod number;
pub mod parse;
pub mod tokenize;
