//! A lossless front end for a small expression language.
//!
//! Source text is cut into tokens, the tokens are arranged into a syntax tree
//! that keeps every byte of the input, and the tree can be rendered as an
//! indented listing of its nodes and tokens with their byte ranges.

pub mod kind;
pub mod lexer;
pub mod tree;
pub mod green;
pub mod parser;
pub mod expr;
pub mod render;
