//! Front end for a small expression language: a lexical scanner that turns
//! source text into a token sequence, a recursive-descent parser that builds
//! an expression tree from the tokens, and a printer that renders the tree
//! as a fully parenthesized prefix string.
//!
//! Every stage is specified against a mathematical model: the scanner against
//! `scanner::scan_src`, the parser against `parser::sp_expression`, and the
//! printer against `ast_printer::print_expr`. Diagnostics are collected in an
//! explicit [`error::ErrorLog`] rather than hidden global state.

pub mod error;
pub mod expressions;
pub mod laws;
pub mod parser;
pub mod scanner;
pub mod text;
pub mod token;
