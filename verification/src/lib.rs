//! A template-expression engine: a small dynamically typed expression
//! language embedded in markup templates, with a catalog of named templates.
//!
//! Expression source text is tokenized into a syntax-token tree, lowered
//! into an abstract syntax tree, and evaluated against a variable
//! environment and a catalog handle, producing a runtime value that is
//! rendered to an HTML string.

pub mod ast;
pub mod catalog;
pub mod errors;
pub mod eval;
pub mod host;
pub mod i18n;
pub mod laws;
pub mod markup;
pub mod ops;
pub mod parser;
pub mod render;
pub mod strutil;
pub mod tokens;
pub mod value;
