//! The expression tree and its consumers. The node variant set is closed, so
//! every consumer dispatches by exhaustive matching: adding a variant is a
//! compile-time obligation on each of them.

pub mod ast_printer;
pub mod expr;
