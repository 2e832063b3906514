//! Lexical analysis of arithmetic and logical expressions.

pub mod tokenizer;
