//! Expression trees: their shape, the parser that builds them and the
//! printer that writes them out.

pub mod ast_printer;
pub mod expression;
pub mod generate_ast;
pub mod grammar;
pub mod laws;
pub mod parser;
