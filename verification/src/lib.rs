//! The front end of a tree-walking interpreter for a small scripting
//! language: a scanner that turns source text into tokens, and a
//! recursive-descent parser that turns tokens into one expression tree.
//!
//! The two passes differ in how they treat errors. The [`Scanner`] collects
//! every error and always scans the text to its end. The [`Parser`] stops
//! at the first error.
//!
//! What the passes yield is stated over plain sequences: [`scan_rules`]
//! says which tokens and errors a text has, [`grammar`] which tree or error
//! a sequence of tokens has. The scanner and the parser are proved to
//! compute exactly that. What follows from the rules for every text and
//! every sequence of tokens is proved in [`scan_laws`] and
//! [`grammar_laws`].
//!
//! A number literal is held as an exact [`Decimal`]; the library computes
//! with no floating-point numbers.

pub mod application;
pub mod decimal;
pub mod decimal_laws;
pub mod expr;
pub mod grammar;
pub mod grammar_laws;
pub mod literal_type;
pub mod parser;
pub mod scan_laws;
pub mod scan_rules;
pub mod scanner;
pub mod text;
pub mod token;
pub mod token_data;
pub mod token_type;

pub use application::Program;
pub use decimal::Decimal;
pub use expr::Expr;
pub use literal_type::LiteralType;
pub use parser::{Parser, ParserError};
pub use scanner::{Scanner, ScannerError};
pub use text::CharClass;
pub use token::Token;
pub use token_data::TokenData;
pub use token_type::TokenType;
