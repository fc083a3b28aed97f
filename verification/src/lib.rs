//! A lexical scanner for a small assignment-expression language.
//!
//! The input is a sequence of bytes; the output is a forward-only sequence
//! of [`token::Token`] categories, produced one at a time by
//! [`scanner::Lexer::next`]. Scanning ends at end of input or at the first
//! byte that belongs to no recognized class.

pub mod scanner;
pub mod token;
