//! A strict, verified parser for an HTML-like markup dialect.
//!
//! The pipeline has two stages: a tokenizer that turns the raw character
//! stream into a flat sequence of tokens (open tag, close tag, text run),
//! and a tree builder that consumes that sequence and reconstructs the
//! nested element structure, checking that close tags match their open
//! tags.  The `Parse` trait ties the two together into a single entry
//! point that returns the parsed root element or the first error met.

pub mod html_element;
pub mod parser;
pub mod tokenizer;
