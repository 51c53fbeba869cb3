//! The lexical and early syntactic front end of a small Lox-like language.
//!
//! Source text is scanned into tokens and lexical errors, line by line
//! ([`scanner::tokenize`], [`scanner::scan_source`]); the scanned entries are
//! then parsed into expression trees ([`parser::parse_tokens`]). Both steps
//! are total: a failure is an entry of the result, never a reason to stop.
//!
//! Every function states what it computes over the characters of its input,
//! and the statements are proved. What is computed is defined in [`grammar`]
//! for the scanner, in [`syntax`] for the parser, and in [`rendering`] and
//! [`number`] for the text that results are shown as; what holds of all scans,
//! parses and numbers is proved in [`scanner_laws`], [`parser_laws`] and
//! [`number_laws`].
//!
//! Two functions of the standard library are called without proof, both in
//! [`chars`]: they tell which characters beyond ASCII are letters and
//! numbers. One more, `String::push`, is specified without proof in [`text`].

pub mod chars;
pub mod grammar;
pub mod number;
pub mod number_laws;
pub mod parser;
pub mod parser_laws;
pub mod rendering;
pub mod report;
pub mod scanner;
pub mod scanner_laws;
pub mod syntax;
pub mod text;

