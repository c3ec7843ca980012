//! Lexical front end for a small C-like scripting language.
//!
//! The library turns raw source text into a stream of classified tokens:
//! punctuators, one- and two-character operators, string and numeric
//! literals, identifiers, reserved keywords, and a single terminal `Eof`
//! token. Malformed input is reported in-band as typed lexical errors, so
//! the scan itself never aborts.

pub mod laws;
pub mod number;
pub mod scanner;
pub mod text;
pub mod token;
pub mod tokenize;

pub use scanner::Scanner;
pub use token::Token;
pub use tokenize::Tokenizer;
