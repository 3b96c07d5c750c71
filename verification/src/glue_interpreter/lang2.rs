pub mod varmap;
pub mod ast;
