pub mod expr;
pub mod stmt;
pub mod ast;
