//! A parser-combinator library with a recursive-descent arithmetic grammar.
//!
//! The library is organised in layers. [`parser`] defines the parser
//! capability: something that consumes a prefix of the input and produces a
//! value or fails, together with its mathematical meaning. [`combinator`]
//! builds new parsers from existing ones (sequencing, choice, repetition,
//! mapping, filtering, wrapping, full consumption). [`simple`] holds
//! grammar-agnostic leaf parsers (single character, literal string, block
//! comment, whitespace). [`syntax`] builds the arithmetic grammar with two
//! precedence tiers over the [`ast`] expression type, and [`completeness`]
//! proves that every string generated by the grammar is parsed in full.

pub mod ast;
pub mod parser;
pub mod combinator;
pub mod simple;
pub mod syntax;
pub mod completeness;
